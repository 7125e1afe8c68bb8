//! What holds of the grammar for every text: which texts are read as
//! directives, how a written header is read back, and what a parse leaves
//! of the text.

use crate::alphabet::Alphabet;
use crate::config::{
    law_last_command_counts, law_reduce_is_well_formed, lemma_reduce_packages,
    RunnerConfiguration,
};
use crate::directive::Directive;
use crate::error::ParseError;
use crate::grammar::{
    any_arg_match, arguments, blank_line, command_match, lemma_any_arg_match_consumes,
    lemma_line_ending, lemma_literal, lemma_prefix_len, lemma_prefix_len_unique, lemma_token,
    line_ending, literal, many_arg_match, more_args, nix_option_match, nix_registry_match,
    one_argument, package_match, parse_nix_runner_file, prefix_len, pure_match, shebang_commands,
    shebang_sequence, skip_line, token, token_pair, two_arguments, within_line,
};
use crate::rendering::{
    all_expressible, all_wf, alphabet_of, block_text, directives_of, expressible, is_line,
    is_line_ending, keyword, packages, rendered, rendered_arguments, Header, Line,
};
use vstd::prelude::*;

verus! {

/// The five keywords exclude one another: of a payload that begins with one
/// of them, none of the others is a prefix.
pub proof fn law_keywords_are_disjoint(payload: Seq<char>)
    ensures
        literal(payload, "nix-option "@) is Some ==> {
            &&& literal(payload, "registry "@) is None
            &&& literal(payload, "pure"@) is None
            &&& literal(payload, "command "@) is None
            &&& literal(payload, "package "@) is None
        },
        literal(payload, "registry "@) is Some ==> {
            &&& literal(payload, "pure"@) is None
            &&& literal(payload, "command "@) is None
            &&& literal(payload, "package "@) is None
        },
        literal(payload, "pure"@) is Some ==> {
            &&& literal(payload, "command "@) is None
            &&& literal(payload, "package "@) is None
        },
        literal(payload, "command "@) is Some ==> literal(payload, "package "@) is None,
{
    reveal_strlit("nix-option ");
    reveal_strlit("registry ");
    reveal_strlit("pure");
    reveal_strlit("command ");
    reveal_strlit("package ");
    if literal(payload, "nix-option "@) is Some {
        assert(payload[0] == "nix-option "@[0]);
    }
    if literal(payload, "registry "@) is Some {
        assert(payload[0] == "registry "@[0]);
    }
    if literal(payload, "pure"@) is Some {
        assert(payload[0] == "pure"@[0]);
        assert(payload[1] == "pure"@[1]);
    }
    if literal(payload, "command "@) is Some {
        assert(payload[0] == "command "@[0]);
    }
    if literal(payload, "package "@) is Some {
        assert(payload[0] == "package "@[0]);
        assert(payload[1] == "package "@[1]);
    }
}

/// At most one of the five recognizers matches a text, so the order in which
/// the dispatcher tries them does not decide which directive a line is.
pub proof fn law_one_kind_matches(s: Seq<char>)
    ensures
        nix_option_match(s) is Ok ==> any_arg_match(s) == nix_option_match(s)
            && nix_registry_match(s) is Err && pure_match(s) is Err && command_match(s) is Err
            && package_match(s) is Err,
        nix_registry_match(s) is Ok ==> any_arg_match(s) == nix_registry_match(s)
            && nix_option_match(s) is Err && pure_match(s) is Err && command_match(s) is Err
            && package_match(s) is Err,
        pure_match(s) is Ok ==> any_arg_match(s) == pure_match(s) && nix_option_match(s) is Err
            && nix_registry_match(s) is Err && command_match(s) is Err && package_match(s) is Err,
        command_match(s) is Ok ==> any_arg_match(s) == command_match(s) && nix_option_match(s) is Err
            && nix_registry_match(s) is Err && pure_match(s) is Err && package_match(s) is Err,
        package_match(s) is Ok ==> any_arg_match(s) == package_match(s) && nix_option_match(s) is Err
            && nix_registry_match(s) is Err && pure_match(s) is Err && command_match(s) is Err,
{
    if let Ok((_, payload)) = shebang_commands(s) {
        law_keywords_are_disjoint(payload);
    }
}

/// A token followed by a character outside its alphabet, or by nothing, is
/// read back whole.
proof fn lemma_token_read_back(found: Seq<char>, after: Seq<char>, alphabet: Alphabet)
    requires
        alphabet.is_token(found),
        after.len() > 0 ==> !alphabet.contains(after[0]),
    ensures
        token(found + after, alphabet) == Some((after, found)),
{
    let s = found + after;
    let n = found.len() as int;
    assert forall|j: int| 0 <= j < n implies (alphabet.predicate())(#[trigger] s[j]) by {
        assert(s[j] == found[j]);
    }
    if n < s.len() {
        assert(s[n] == after[0]);
    }
    lemma_prefix_len_unique(s, alphabet.predicate(), n);
    assert(s.skip(n) =~= after);
    assert(s.take(n) =~= found);
}

/// Two tokens with one blank between them, followed by a character outside
/// their alphabet or by nothing, are read back as that pair.
proof fn lemma_pair_read_back(
    first: Seq<char>,
    second: Seq<char>,
    after: Seq<char>,
    alphabet: Alphabet,
)
    requires
        alphabet.is_token(first),
        alphabet.is_token(second),
        after.len() > 0 ==> !alphabet.contains(after[0]),
    ensures
        token_pair(first + " "@ + second + after, alphabet) == Some((after, (first, second))),
{
    reveal_strlit(" ");
    let s = first + " "@ + second + after;
    let after_first = " "@ + second + after;
    let after_blank = second + after;
    assert(s =~= first + after_first);
    assert(after_first[0] == ' ');
    lemma_token_read_back(first, after_first, alphabet);
    assert(" "@ =~= after_first.subrange(0, 1));
    assert(after_first.skip(1) =~= after_blank);
    lemma_token_read_back(second, after, alphabet);
}

/// What may follow a directive on its line without changing how it is read:
/// nothing, or a character that belongs to neither alphabet.
pub open spec fn ends_token(after: Seq<char>) -> bool {
    after.len() > 0 ==> !Alphabet::Reference.contains(after[0])
}

/// Of a line that begins with the marker and the keyword of `directive`,
/// only the recognizer of that keyword finds the arguments, which are all
/// that follows the keyword. To the others the line is unknown.
proof fn lemma_arguments_by_keyword(directive: Directive, given: Seq<char>)
    ensures
        ({
            let s = "#!"@ + keyword(directive) + given;
            let unknown = Err::<Seq<char>, _>(ParseError::UnknownDirective);
            &&& arguments(s, keyword(directive)) == Ok::<_, ParseError>(given)
            &&& !(directive is NixOption) ==> arguments(s, "nix-option "@) == unknown
            &&& !(directive is Registry) ==> arguments(s, "registry "@) == unknown
            &&& !(directive is Purity) ==> arguments(s, "pure"@) == unknown
            &&& !(directive is Command) ==> arguments(s, "command "@) == unknown
            &&& !(directive is Package) ==> arguments(s, "package "@) == unknown
        }),
{
    reveal_strlit("#!");
    let s = "#!"@ + keyword(directive) + given;
    let payload = keyword(directive) + given;
    assert(s =~= "#!"@ + payload);
    assert("#!"@ =~= s.subrange(0, 2));
    assert(s.skip(2) =~= payload);
    assert(keyword(directive) =~= payload.subrange(0, keyword(directive).len() as int));
    assert(payload.skip(keyword(directive).len() as int) =~= given);
    law_keywords_are_disjoint(payload);
}

/// What the dispatcher makes of a line that begins with the marker and the
/// keyword of `directive`: what the recognizer of that keyword makes of what
/// follows the keyword.
proof fn lemma_dispatch(directive: Directive, given: Seq<char>)
    ensures
        any_arg_match("#!"@ + keyword(directive) + given) == match directive {
            Directive::Purity(_) => Ok((given, Directive::Purity(true))),
            Directive::NixOption { .. } => match token_pair(given, Alphabet::Identifier) {
                Some((rest, (key, value))) => Ok((rest, Directive::NixOption { key, value })),
                None => Err(ParseError::MalformedArgument),
            },
            Directive::Registry { .. } => match token_pair(given, Alphabet::Reference) {
                Some((rest, (old_ref, new_ref))) => Ok(
                    (rest, Directive::Registry { old_ref, new_ref }),
                ),
                None => Err(ParseError::MalformedArgument),
            },
            Directive::Package(_) => match token(given, Alphabet::Identifier) {
                Some((rest, name)) => Ok((rest, Directive::Package(name))),
                None => Err(ParseError::MalformedArgument),
            },
            Directive::Command(_) => match token(given, Alphabet::Identifier) {
                Some((rest, name)) => Ok((rest, Directive::Command(name))),
                None => Err(ParseError::MalformedArgument),
            },
        },
{
    lemma_arguments_by_keyword(directive, given);
}

/// The line that states a directive is read back as that directive, and all
/// that follows the line is left.
pub proof fn law_rendered_directive_is_recognised(directive: Directive, after: Seq<char>)
    requires
        expressible(directive),
        ends_token(after),
    ensures
        any_arg_match(rendered(directive) + after) == Ok::<_, ParseError>((after, directive)),
{
    let given = rendered_arguments(directive) + after;
    assert(rendered(directive) + after =~= "#!"@ + keyword(directive) + given);
    lemma_dispatch(directive, given);
    match directive {
        Directive::Purity(_) => {
            assert(given =~= after);
        },
        Directive::NixOption { key, value } => {
            lemma_pair_read_back(key, value, after, Alphabet::Identifier);
        },
        Directive::Registry { old_ref, new_ref } => {
            lemma_pair_read_back(old_ref, new_ref, after, Alphabet::Reference);
        },
        Directive::Package(name) => {
            lemma_token_read_back(name, after, Alphabet::Identifier);
        },
        Directive::Command(name) => {
            lemma_token_read_back(name, after, Alphabet::Identifier);
        },
    }
}

/// The arguments that were found stand after the marker and the keyword.
proof fn lemma_arguments(s: Seq<char>, keyword: Seq<char>)
    ensures
        arguments(s, keyword) matches Ok(given) ==> s == "#!"@ + keyword + given,
{
    if let Ok(given) = arguments(s, keyword) {
        let payload = s.skip("#!"@.len() as int);
        lemma_literal(s, "#!"@);
        lemma_literal(payload, keyword);
        assert(s =~= "#!"@ + keyword + given);
    }
}

/// A directive of one argument that was recognised is the marker, the
/// keyword and a token, before what is left.
proof fn lemma_one_argument(s: Seq<char>, keyword: Seq<char>, alphabet: Alphabet)
    ensures
        one_argument(s, keyword, alphabet) matches Ok((rest, name)) ==> {
            &&& alphabet.is_token(name)
            &&& s == "#!"@ + keyword + name + rest
            &&& rest.len() > 0 ==> !alphabet.contains(rest[0])
        },
{
    if let Ok((rest, name)) = one_argument(s, keyword, alphabet) {
        lemma_arguments(s, keyword);
        let given = arguments(s, keyword)->Ok_0;
        lemma_token(given, alphabet);
        assert(s =~= "#!"@ + keyword + name + rest);
    }
}

/// A pair of tokens that was found is two tokens with one blank between
/// them, before what is left.
proof fn lemma_token_pair(s: Seq<char>, alphabet: Alphabet)
    ensures
        token_pair(s, alphabet) matches Some((rest, (first, second))) ==> {
            &&& alphabet.is_token(first)
            &&& alphabet.is_token(second)
            &&& s == first + " "@ + second + rest
            &&& rest.len() > 0 ==> !alphabet.contains(rest[0])
        },
{
    if let Some((rest, (first, second))) = token_pair(s, alphabet) {
        lemma_token(s, alphabet);
        let (after_first, _) = token(s, alphabet)->0;
        lemma_literal(after_first, " "@);
        let after_blank = literal(after_first, " "@)->0;
        lemma_token(after_blank, alphabet);
        assert(s =~= first + " "@ + second + rest);
    }
}

/// A directive of two arguments that was recognised is the marker, the
/// keyword and a pair of tokens, before what is left.
proof fn lemma_two_arguments(s: Seq<char>, keyword: Seq<char>, alphabet: Alphabet)
    ensures
        two_arguments(s, keyword, alphabet) matches Ok((rest, (first, second))) ==> {
            &&& alphabet.is_token(first)
            &&& alphabet.is_token(second)
            &&& s == "#!"@ + keyword + (first + " "@ + second) + rest
            &&& rest.len() > 0 ==> !alphabet.contains(rest[0])
        },
{
    if let Ok((rest, (first, second))) = two_arguments(s, keyword, alphabet) {
        lemma_arguments(s, keyword);
        let given = arguments(s, keyword)->Ok_0;
        lemma_token_pair(given, alphabet);
        assert(s =~= "#!"@ + keyword + (first + " "@ + second) + rest);
    }
}

/// What the dispatcher recognises is a line that states a directive, and
/// nothing else: the text is that line followed by what is left, the
/// directive is one that a line can state, and, since an argument runs as far
/// as it can, what is left does not go on with a character of the argument's
/// alphabet.
pub proof fn law_recognised_directive_is_rendered(s: Seq<char>)
    ensures
        any_arg_match(s) matches Ok((rest, directive)) ==> {
            &&& expressible(directive)
            &&& s == rendered(directive) + rest
            &&& !(directive is Purity) && rest.len() > 0 ==> !alphabet_of(directive).contains(
                rest[0],
            )
        },
{
    if let Ok((rest, directive)) = any_arg_match(s) {
        if nix_option_match(s) is Ok {
            lemma_two_arguments(s, "nix-option "@, Alphabet::Identifier);
        } else if nix_registry_match(s) is Ok {
            lemma_two_arguments(s, "registry "@, Alphabet::Reference);
        } else if pure_match(s) is Ok {
            lemma_arguments(s, "pure"@);
            assert(s =~= rendered(directive) + rest);
        } else if command_match(s) is Ok {
            lemma_one_argument(s, "command "@, Alphabet::Identifier);
        } else {
            lemma_one_argument(s, "package "@, Alphabet::Identifier);
        }
    }
}

/// What may follow the first argument of a pair when the second is
/// missing: anything but a blank and a character of the alphabet after it.
pub open spec fn lacks_second_argument(after: Seq<char>, alphabet: Alphabet) -> bool {
    &&& after.len() > 0 ==> !alphabet.contains(after[0])
    &&& !(after.len() >= 2 && after[0] == ' ' && alphabet.contains(after[1]))
}

/// A line of a directive of two arguments that gives only the first is
/// turned down for its arguments: by the recognizer of its kind, and so by
/// the dispatcher.
pub proof fn law_missing_second_argument(
    directive: Directive,
    first: Seq<char>,
    after: Seq<char>,
)
    requires
        directive is NixOption || directive is Registry,
        alphabet_of(directive).is_token(first),
        lacks_second_argument(after, alphabet_of(directive)),
    ensures
        any_arg_match("#!"@ + keyword(directive) + first + after) == Err::<(Seq<char>, Directive), _>(
            ParseError::MalformedArgument,
        ),
{
    let alphabet = alphabet_of(directive);
    let given = first + after;
    assert("#!"@ + keyword(directive) + first + after =~= "#!"@ + keyword(directive) + given);
    lemma_dispatch(directive, given);
    lemma_no_second_token(first, after, alphabet);
}

/// A token that is not followed by a blank and a second token is no pair.
proof fn lemma_no_second_token(first: Seq<char>, after: Seq<char>, alphabet: Alphabet)
    requires
        alphabet.is_token(first),
        lacks_second_argument(after, alphabet),
    ensures
        token_pair(first + after, alphabet) is None,
{
    reveal_strlit(" ");
    lemma_token_read_back(first, after, alphabet);
    if let Some(after_blank) = literal(after, " "@) {
        lemma_literal(after, " "@);
        lemma_token(after_blank, alphabet);
        assert(after_blank.len() > 0 ==> after_blank[0] == after[1]);
    }
}

/// A line ending is read as one, and what follows it is left; it is no
/// directive, and it ends a token.
proof fn lemma_ending(ending: Seq<char>, after: Seq<char>)
    requires
        is_line_ending(ending),
    ensures
        line_ending(ending + after) == Some(after),
        any_arg_match(ending + after) is Err,
        ends_token(ending + after),
{
    reveal_strlit("\n");
    reveal_strlit("\r\n");
    reveal_strlit("#!");
    let s = ending + after;
    assert(ending =~= s.subrange(0, ending.len() as int));
    assert(s.skip(ending.len() as int) =~= after);
    if ending == "\r\n"@ {
        assert(s[0] == '\r');
        if "\n"@.is_prefix_of(s) {
            assert("\n"@[0] == s[0]);
        }
    }
    if shebang_sequence(s) is Ok {
        assert(s[0] == "#!"@[0]);
    }
}

/// After a directive, a line ending and one more directive line are read
/// as that directive, and reading goes on after the line.
proof fn lemma_more_args_step(directive: Directive, ending: Seq<char>, after: Seq<char>)
    requires
        expressible(directive),
        is_line_ending(ending),
        ends_token(after),
    ensures
        more_args(ending + (rendered(directive) + after)) == (
            more_args(after).0,
            seq![directive] + more_args(after).1,
        ),
{
    lemma_ending(ending, rendered(directive) + after);
    law_rendered_directive_is_recognised(directive, after);
}

/// A block begins with a directive line, and reading goes on after it.
proof fn lemma_many_arg_match_step(directive: Directive, after: Seq<char>)
    requires
        expressible(directive),
        ends_token(after),
    ensures
        many_arg_match(rendered(directive) + after) == (
            more_args(after).0,
            seq![directive] + more_args(after).1,
        ),
{
    law_rendered_directive_is_recognised(directive, after);
}

/// After a directive, reading stops before a line ending that no directive
/// follows.
proof fn lemma_more_args_stop(ending: Seq<char>, tail: Seq<char>)
    requires
        is_line_ending(ending),
        any_arg_match(tail) is Err,
    ensures
        more_args(ending + tail) == (ending + tail, Seq::<Directive>::empty()),
{
    lemma_ending(ending, tail);
}

/// The text of a block that is followed by `tail` begins with the
/// directive of its first line.
proof fn lemma_block_text_unfold(lines: Seq<Line>, tail: Seq<char>)
    requires
        lines.len() > 0,
    ensures
        block_text(lines) + tail == rendered(lines[0].directive) + (lines[0].ending + (block_text(
            lines.drop_first(),
        ) + tail)),
{
    assert(block_text(lines) + tail =~= rendered(lines[0].directive) + (lines[0].ending + (
        block_text(lines.drop_first()) + tail)));
}

/// What is left of well-formed lines without the first is well-formed, and
/// the directives of the lines are that of the first and those of the rest.
proof fn lemma_drop_first_line(lines: Seq<Line>)
    requires
        all_wf(lines),
        lines.len() > 0,
    ensures
        lines[0].wf(),
        all_wf(lines.drop_first()),
        seq![lines[0].directive] + directives_of(lines.drop_first()) == directives_of(lines),
{
    let others = lines.drop_first();
    assert forall|i: int| 0 <= i < others.len() implies (#[trigger] others[i]).wf() by {
        assert(others[i] == lines[i + 1]);
    }
    assert(seq![lines[0].directive] + directives_of(others) =~= directives_of(lines));
}

/// The line ending that stands before `tail` when `lines` follow a line
/// that `previous` closes: that of the last line.
spec fn last_ending(previous: Seq<char>, lines: Seq<Line>) -> Seq<char> {
    if lines.len() == 0 {
        previous
    } else {
        lines.last().ending
    }
}

/// After a directive whose line `previous` closes, `lines` are read one by
/// one, and reading stops before the ending of the last line when `tail` is
/// no directive.
proof fn lemma_more_args_block(previous: Seq<char>, lines: Seq<Line>, tail: Seq<char>)
    requires
        is_line_ending(previous),
        all_wf(lines),
        any_arg_match(tail) is Err,
    ensures
        more_args(previous + (block_text(lines) + tail)) == (
            last_ending(previous, lines) + tail,
            directives_of(lines),
        ),
    decreases lines.len(),
{
    if lines.len() == 0 {
        assert(block_text(lines) + tail =~= tail);
        lemma_more_args_stop(previous, tail);
        assert(directives_of(lines) =~= Seq::empty());
    } else {
        let first = lines[0];
        let others = lines.drop_first();
        let after = first.ending + (block_text(others) + tail);
        lemma_block_text_unfold(lines, tail);
        lemma_drop_first_line(lines);
        lemma_ending(first.ending, block_text(others) + tail);
        lemma_more_args_step(first.directive, previous, after);
        lemma_more_args_block(first.ending, others, tail);
        if others.len() > 0 {
            assert(others.last() == lines.last());
        }
    }
}

/// A block of well-formed directive lines is read back as its directives, in
/// their order. Reading stops where `tail`, which is no directive, begins:
/// what is left is `tail` after the ending of the last directive's line.
pub proof fn law_block_is_read_back(lines: Seq<Line>, tail: Seq<char>)
    requires
        all_wf(lines),
        any_arg_match(tail) is Err,
    ensures
        many_arg_match(block_text(lines) + tail) == (
            if lines.len() == 0 {
                tail
            } else {
                lines.last().ending + tail
            },
            directives_of(lines),
        ),
{
    if lines.len() == 0 {
        assert(block_text(lines) + tail =~= tail);
        assert(directives_of(lines) =~= Seq::empty());
        assert(many_arg_match(tail) == (tail, Seq::<Directive>::empty()));
    } else {
        let first = lines[0];
        let others = lines.drop_first();
        let after = first.ending + (block_text(others) + tail);
        lemma_block_text_unfold(lines, tail);
        lemma_drop_first_line(lines);
        lemma_ending(first.ending, block_text(others) + tail);
        lemma_many_arg_match_step(first.directive, after);
        lemma_more_args_block(first.ending, others, tail);
        if others.len() > 0 {
            assert(others.last() == lines.last());
        }
    }
}

/// What follows the first line of a text is what follows the line's ending.
proof fn lemma_skip_line(line: Seq<char>, ending: Seq<char>, after: Seq<char>)
    requires
        is_line(line),
        is_line_ending(ending),
    ensures
        skip_line(line + ending + after) == Some(after),
{
    reveal_strlit("\n");
    reveal_strlit("\r\n");
    let s = line + ending + after;
    let n = line.len() + ending.len() - 1;
    assert forall|j: int| 0 <= j < n implies (within_line())(#[trigger] s[j]) by {
        if j < line.len() {
            assert(s[j] == line[j]);
        } else {
            assert(s[j] == ending[j - line.len()]);
        }
    }
    assert(s[n] == ending[ending.len() - 1]);
    lemma_prefix_len_unique(s, within_line(), n);
    assert(s.skip(n + 1) =~= after);
}

/// Whatever stands on the interpreter line, a header of well-formed
/// directive lines is read as the fold of its directives, and the rest of the
/// file decides the outcome as the blank-line check reads it: `tail`, which
/// is no directive, must begin with the blank line, and the body is what
/// follows it.
pub proof fn law_header_is_read_back(header: Header, tail: Seq<char>)
    requires
        header.wf(),
        any_arg_match(tail) is Err,
    ensures
        parse_nix_runner_file(header.text() + tail) == match blank_line(tail) {
            Ok(body) => Ok((RunnerConfiguration::reduce(header.directives()), body)),
            Err(e) => Err(e),
        },
{
    reveal_strlit("#!");
    let s = header.text() + tail;
    let block = block_text(header.lines) + tail;
    let first_line = header.interpreter + header.ending + block;
    assert(s =~= "#!"@ + first_line);
    assert("#!"@ =~= s.subrange(0, 2));
    assert(s.skip(2) =~= first_line);
    lemma_skip_line(header.interpreter, header.ending, block);
    law_block_is_read_back(header.lines, tail);
    if header.lines.len() > 0 {
        lemma_ending(header.lines.last().ending, tail);
        reveal_strlit("\n");
        reveal_strlit("\r\n");
    }
}

/// After well-formed header lines, a line that begins with the marker and
/// a keyword but goes on with faulty arguments fails the parse as a malformed
/// argument.
pub proof fn law_malformed_line(header: Header, tail: Seq<char>)
    requires
        header.wf(),
        any_arg_match(tail) == Err::<(Seq<char>, Directive), _>(ParseError::MalformedArgument),
    ensures
        parse_nix_runner_file(header.text() + tail) == Err::<(RunnerConfiguration, Seq<char>), _>(
            ParseError::MalformedArgument,
        ),
{
    reveal_strlit("#!");
    lemma_line_ending(tail);
    assert(tail[0] == "#!"@[0]);
    law_header_is_read_back(header, tail);
}

/// After well-formed header lines, a line that is neither blank nor a
/// directive, and that does not begin with the marker and a keyword, fails
/// the parse as an unknown directive.
pub proof fn law_unknown_line(header: Header, tail: Seq<char>)
    requires
        header.wf(),
        tail.len() > 0,
        line_ending(tail) is None,
        any_arg_match(tail) matches Err(e) && e != ParseError::MalformedArgument,
    ensures
        parse_nix_runner_file(header.text() + tail) == Err::<(RunnerConfiguration, Seq<char>), _>(
            ParseError::UnknownDirective,
        ),
{
    law_header_is_read_back(header, tail);
}

/// Reading a file that was written from an interpreter line, directive
/// lines, a blank line and a body gives back the fold of the directives and
/// the body, untouched.
pub proof fn law_round_trip(header: Header, blank: Seq<char>, body: Seq<char>)
    requires
        header.wf(),
        is_line_ending(blank),
    ensures
        parse_nix_runner_file(header.file(blank, body)) == Ok::<_, ParseError>(
            (RunnerConfiguration::reduce(header.directives()), body),
        ),
{
    reveal_strlit("\n");
    reveal_strlit("\r\n");
    let tail = blank + body;
    lemma_ending(blank, body);
    law_header_is_read_back(header, tail);
    assert(header.file(blank, body) =~= header.text() + tail);
}

/// Where a blank line follows the interpreter line at once, the defaults
/// apply in full, and the body is all that follows the blank line.
pub proof fn law_empty_header(
    interpreter: Seq<char>,
    ending: Seq<char>,
    blank: Seq<char>,
    body: Seq<char>,
)
    requires
        is_line(interpreter),
        is_line_ending(ending),
        is_line_ending(blank),
    ensures
        parse_nix_runner_file("#!"@ + interpreter + ending + blank + body) == Ok::<_, ParseError>(
            (RunnerConfiguration::initial(), body),
        ),
{
    let header = Header { interpreter, ending, lines: Seq::empty() };
    law_round_trip(header, blank, body);
    assert(header.directives() =~= Seq::empty());
    assert("#!"@ + interpreter + ending + blank + body =~= header.file(blank, body));
}

/// Where the file ends with its header lines, with no blank line after
/// them, the terminator is missing, however well-formed each line is.
pub proof fn law_missing_terminator(header: Header)
    requires
        header.wf(),
    ensures
        parse_nix_runner_file(header.text()) == Err::<(RunnerConfiguration, Seq<char>), _>(
            ParseError::MissingTerminator,
        ),
{
    reveal_strlit("#!");
    let tail = Seq::<char>::empty();
    law_header_is_read_back(header, tail);
    assert(header.text() + tail =~= header.text());
}

/// A header of `#!package` lines gives the packages exactly as the lines
/// name them: in the order of the lines, with every repetition, and with
/// every other field at its default.
pub proof fn law_packages_in_file_order(
    header: Header,
    names: Seq<Seq<char>>,
    blank: Seq<char>,
    body: Seq<char>,
)
    requires
        header.wf(),
        header.directives() == packages(names),
        is_line_ending(blank),
    ensures
        parse_nix_runner_file(header.file(blank, body)) == Ok::<_, ParseError>(
            (RunnerConfiguration { packages: names, ..RunnerConfiguration::initial() }, body),
        ),
{
    lemma_reduce_packages(names);
    law_round_trip(header, blank, body);
}

/// In a file written from directives, the command is the one that the last
/// `#!command` line names, whatever the earlier ones name.
pub proof fn law_last_command_line_counts(
    header: Header,
    blank: Seq<char>,
    body: Seq<char>,
    last: int,
)
    requires
        header.wf(),
        is_line_ending(blank),
        0 <= last < header.lines.len(),
        header.lines[last].directive is Command,
        forall|j: int|
            last < j < header.lines.len() ==> !((#[trigger] header.lines[j]).directive is Command),
    ensures
        parse_nix_runner_file(header.file(blank, body)) matches Ok((configuration, _))
            && configuration.command == header.lines[last].directive->Command_0,
{
    law_round_trip(header, blank, body);
    let directives = header.directives();
    assert forall|j: int| last < j < directives.len() implies !(#[trigger] directives[j]
        is Command) by {
        assert(directives[j] == header.lines[j].directive);
    }
    law_last_command_counts(directives, last);
}

/// The directives of well-formed lines are directives that a line can
/// state.
proof fn lemma_directives_expressible(lines: Seq<Line>)
    requires
        all_wf(lines),
    ensures
        all_expressible(directives_of(lines)),
{
    assert forall|i: int| 0 <= i < directives_of(lines).len() implies expressible(
        #[trigger] directives_of(lines)[i],
    ) by {
        assert(lines[i].wf());
    }
}

/// Where every purity directive holds `true`, one of them is enough for a
/// pure environment.
proof fn lemma_some_purity_is_pure(directives: Seq<Directive>, at: int)
    requires
        all_expressible(directives),
        0 <= at < directives.len(),
        directives[at] is Purity,
    ensures
        RunnerConfiguration::reduce(directives).pure,
    decreases directives.len(),
{
    if !(directives.last() is Purity) {
        let before = directives.drop_last();
        assert forall|i: int| 0 <= i < before.len() implies expressible(#[trigger] before[i]) by {
            assert(before[i] == directives[i]);
        }
        lemma_some_purity_is_pure(before, at);
    } else {
        assert(expressible(directives[directives.len() - 1]));
    }
}

/// In a file written from directives, one `#!pure` line, wherever it
/// stands and however often it is repeated, makes the environment pure.
pub proof fn law_pure_line_counts(header: Header, blank: Seq<char>, body: Seq<char>, at: int)
    requires
        header.wf(),
        is_line_ending(blank),
        0 <= at < header.lines.len(),
        header.lines[at].directive is Purity,
    ensures
        parse_nix_runner_file(header.file(blank, body)) matches Ok((configuration, _))
            && configuration.pure,
{
    law_round_trip(header, blank, body);
    lemma_directives_expressible(header.lines);
    lemma_some_purity_is_pure(header.directives(), at);
}

/// Every directive that follows a directive in a block is one that a line
/// can state.
proof fn lemma_more_args_expressible(s: Seq<char>)
    ensures
        all_expressible(more_args(s).1),
    decreases s.len(),
{
    if let Some(line) = line_ending(s) {
        if let Ok((rest, directive)) = any_arg_match(line) {
            lemma_line_ending(s);
            lemma_any_arg_match_consumes(line);
            law_recognised_directive_is_rendered(line);
            lemma_more_args_expressible(rest);
            let directives = seq![directive] + more_args(rest).1;
            assert forall|i: int| 0 <= i < directives.len() implies expressible(
                #[trigger] directives[i],
            ) by {
                if i > 0 {
                    assert(directives[i] == more_args(rest).1[i - 1]);
                }
            }
        }
    }
}

/// Every directive that the directive block yields is one that a line can
/// state: its arguments are tokens of the alphabet of its kind.
pub proof fn law_block_is_well_formed(s: Seq<char>)
    ensures
        all_expressible(many_arg_match(s).1),
{
    if let Ok((rest, directive)) = any_arg_match(s) {
        law_recognised_directive_is_rendered(s);
        lemma_more_args_expressible(rest);
        let directives = seq![directive] + more_args(rest).1;
        assert forall|i: int| 0 <= i < directives.len() implies expressible(
            #[trigger] directives[i],
        ) by {
            if i > 0 {
                assert(directives[i] == more_args(rest).1[i - 1]);
            }
        }
    }
}

/// The marker is missed exactly in the texts that do not begin with `#!`.
pub proof fn law_missing_header_marker(s: Seq<char>)
    ensures
        parse_nix_runner_file(s) == Err::<(RunnerConfiguration, Seq<char>), _>(
            ParseError::MissingHeaderMarker,
        ) <==> !"#!"@.is_prefix_of(s),
{
}

/// Whatever the text, a parse never ends with input left over.
pub proof fn law_consumption_is_complete(s: Seq<char>)
    ensures
        parse_nix_runner_file(s) != Err::<(RunnerConfiguration, Seq<char>), _>(
            ParseError::IncompleteConsumption,
        ),
{
}

/// A line ending that was read is one of the two, and it stands before what
/// it leaves.
proof fn lemma_line_ending_found(s: Seq<char>) -> (ending: Seq<char>)
    requires
        line_ending(s) is Some,
    ensures
        is_line_ending(ending),
        s == ending + line_ending(s)->0,
{
    reveal_strlit("\n");
    reveal_strlit("\r\n");
    lemma_line_ending(s);
    let rest = line_ending(s)->0;
    let ending = s.take(s.len() - rest.len());
    assert(s =~= ending + rest);
    if s == seq!['\n'] + rest {
        assert(ending =~= "\n"@);
    } else {
        assert(ending =~= "\r\n"@);
    }
    ending
}

/// The text of a block whose first line is `line`, followed by `tail`.
proof fn lemma_block_text_cons(line: Line, others: Seq<Line>, tail: Seq<char>)
    ensures
        block_text(seq![line] + others) + tail == rendered(line.directive) + (line.ending + (
            block_text(others) + tail)),
        directives_of(seq![line] + others) == seq![line.directive] + directives_of(others),
        line.wf() && all_wf(others) ==> all_wf(seq![line] + others),
{
    let lines = seq![line] + others;
    assert(lines.drop_first() =~= others);
    assert(block_text(lines) + tail =~= rendered(line.directive) + (line.ending + (block_text(
        others,
    ) + tail)));
    assert(directives_of(lines) =~= seq![line.directive] + directives_of(others));
    if line.wf() && all_wf(others) {
        assert forall|i: int| 0 <= i < lines.len() implies (#[trigger] lines[i]).wf() by {
            if i > 0 {
                assert(lines[i] == others[i - 1]);
            }
        }
    }
}

/// A directive and the directives that were read after it, with the line
/// ending that follows the last of them, are the text of well-formed lines.
proof fn lemma_more_args_written(directive: Directive, after: Seq<char>) -> (lines: Seq<Line>)
    requires
        expressible(directive),
        line_ending(more_args(after).0) is Some,
    ensures
        all_wf(lines),
        directives_of(lines) == seq![directive] + more_args(after).1,
        block_text(lines) + line_ending(more_args(after).0)->0 == rendered(directive) + after,
    decreases after.len(),
{
    let left = line_ending(more_args(after).0)->0;
    let ending = lemma_line_ending_found(after);
    let next = line_ending(after)->0;
    let line = Line { directive, ending };
    let others = if let Ok((rest, second)) = any_arg_match(next) {
        lemma_any_arg_match_consumes(next);
        law_recognised_directive_is_rendered(next);
        lemma_more_args_written(second, rest)
    } else {
        assert(block_text(Seq::<Line>::empty()) + left =~= left);
        assert(directives_of(Seq::<Line>::empty()) =~= Seq::<Directive>::empty());
        Seq::<Line>::empty()
    };
    lemma_block_text_cons(line, others, left);
    seq![line] + others
}

/// What follows the marker, when its first line is complete, is that line,
/// its ending, and what follows the line.
proof fn lemma_first_line(first_line: Seq<char>) -> (interpreter: Seq<char>)
    requires
        skip_line(first_line) is Some,
    ensures
        is_line(interpreter),
        first_line == interpreter + "\n"@ + skip_line(first_line)->0,
{
    reveal_strlit("\n");
    let n = prefix_len(first_line, within_line()) as int;
    lemma_prefix_len(first_line, within_line());
    let interpreter = first_line.take(n);
    assert forall|j: int| 0 <= j < interpreter.len() implies #[trigger] interpreter[j] != '\n' by {
        assert((within_line())(first_line[j]));
    }
    assert(!(within_line())(first_line[n]));
    assert(first_line =~= interpreter + "\n"@ + first_line.skip(n + 1));
    interpreter
}

/// The text of a file, put together from the text of its parts.
proof fn lemma_file_text(header: Header, blank: Seq<char>, body: Seq<char>, block: Seq<char>)
    requires
        block == block_text(header.lines) + (blank + body),
    ensures
        header.file(blank, body) == "#!"@ + (header.interpreter + header.ending + block),
{
    assert(header.file(blank, body) =~= "#!"@ + (header.interpreter + header.ending + block));
}

/// Every text that a parse accepts is a file as it is written: a
/// well-formed header, a blank line, and the body that the parse returns;
/// and the configuration is the fold of the directives of that header.
/// Together with [`law_round_trip`], this says which texts are accepted, and
/// that nothing but the line endings and the interpreter line is lost.
pub proof fn law_accepted_text_is_written(s: Seq<char>)
    ensures
        parse_nix_runner_file(s) matches Ok((configuration, body)) ==> exists|
            header: Header,
            blank: Seq<char>,
        |
            {
                &&& #[trigger] header.file(blank, body) == s
                &&& header.wf()
                &&& is_line_ending(blank)
                &&& configuration == RunnerConfiguration::reduce(header.directives())
            },
{
    if let Ok((configuration, body)) = parse_nix_runner_file(s) {
        let first_line = s.skip("#!"@.len() as int);
        lemma_literal(s, "#!"@);
        let interpreter = lemma_first_line(first_line);
        let block = skip_line(first_line)->0;
        let (rest, directives) = many_arg_match(block);
        let ending = "\n"@;
        if let Ok((after, directive)) = any_arg_match(block) {
            law_recognised_directive_is_rendered(block);
            let lines = lemma_more_args_written(directive, after);
            let blank = lemma_line_ending_found(line_ending(rest)->0);
            let header = Header { interpreter, ending, lines };
            lemma_file_text(header, blank, body, block);
            assert(header.file(blank, body) == s);
        } else {
            let blank = lemma_line_ending_found(rest);
            let header = Header { interpreter, ending, lines: Seq::empty() };
            assert(block_text(header.lines) + (blank + body) =~= block);
            assert(header.directives() =~= Seq::empty());
            lemma_file_text(header, blank, body, block);
            assert(header.file(blank, body) == s);
        }
    }
}

/// A configuration that was parsed is well-formed: every identifier and
/// every reference in it is a non-empty string over its alphabet.
pub proof fn law_parsed_configuration_is_well_formed(s: Seq<char>)
    ensures
        parse_nix_runner_file(s) matches Ok((configuration, _)) ==> configuration.wf(),
{
    if let Ok((configuration, body)) = parse_nix_runner_file(s) {
        law_accepted_text_is_written(s);
        let (header, blank): (Header, Seq<char>) = choose|header: Header, blank: Seq<char>|
            {
                &&& #[trigger] header.file(blank, body) == s
                &&& header.wf()
                &&& is_line_ending(blank)
                &&& configuration == RunnerConfiguration::reduce(header.directives())
            };
        lemma_directives_expressible(header.lines);
        law_reduce_is_well_formed(header.directives());
    }
}

/// The body that a parse returns is the end of the text, character for
/// character: nothing of it is dropped, added or changed.
pub proof fn law_body_is_end_of_text(s: Seq<char>)
    ensures
        parse_nix_runner_file(s) matches Ok((_, body)) ==> body.is_suffix_of(s),
{
    if let Ok((configuration, body)) = parse_nix_runner_file(s) {
        law_accepted_text_is_written(s);
        let (header, blank): (Header, Seq<char>) = choose|header: Header, blank: Seq<char>|
            {
                &&& #[trigger] header.file(blank, body) == s
                &&& header.wf()
                &&& is_line_ending(blank)
                &&& configuration == RunnerConfiguration::reduce(header.directives())
            };
        let front = header.text() + blank;
        assert(body =~= (front + body).subrange(
            (front + body).len() - body.len(),
            (front + body).len() as int,
        ));
    }
}

} // verus!
