use nix_runner::config::NixRunnerArgs;
use nix_runner::directive::{NixOption, NixRegistryRef, ShebangArg};
use nix_runner::error::ParseError;
use nix_runner::parser::{
    blank_line, body, end_of_input, line_ending, many_arg_match, parse_nix_runner_file, skip_line,
    terminator,
};

fn defaults() -> NixRunnerArgs {
    NixRunnerArgs {
        pure: false,
        nix_option: vec![],
        registry: vec![],
        package: vec![],
        command: "bash".to_string(),
    }
}

#[test]
fn empty_header_gives_defaults_and_body() {
    let parsed = parse_nix_runner_file("#!/usr/bin/env nix-runner\n\necho hello\n");
    assert_eq!(parsed, Ok((defaults(), "echo hello\n")));
}

#[test]
fn empty_header_with_windows_line_endings() {
    let parsed = parse_nix_runner_file("#!/usr/bin/env nix-runner\r\n\r\necho hello\r\n");
    assert_eq!(parsed, Ok((defaults(), "echo hello\r\n")));
}

#[test]
fn empty_body_is_accepted() {
    assert_eq!(parse_nix_runner_file("#!x\n\n"), Ok((defaults(), "")));
}

#[test]
fn body_is_kept_verbatim() {
    let text = "#!/bin/sh\n#!pure\n\n\n  indented \u{2603}\t\n#!package not-a-directive\n\n";
    let (args, body) = parse_nix_runner_file(text).unwrap();
    assert!(args.pure);
    assert_eq!(body, "\n  indented \u{2603}\t\n#!package not-a-directive\n\n");
    assert_eq!(args.package, Vec::<String>::new());
}

#[test]
fn interpreter_line_is_ignored() {
    let text = "#!\u{fc}n\u{ef}c\u{f6}d\u{e9} #!pure #!command zsh \r \u{1f600}\n\nbody";
    assert_eq!(parse_nix_runner_file(text), Ok((defaults(), "body")));
    assert_eq!(parse_nix_runner_file("#!\n\nbody"), Ok((defaults(), "body")));
}

#[test]
fn packages_keep_file_order_and_duplicates() {
    let text = "#!/usr/bin/env nix-runner\n#!package jq\n#!package curl\n#!package jq\n#!package bash_5.2\n\nbody";
    let (args, body) = parse_nix_runner_file(text).unwrap();
    assert_eq!(args.package, vec!["jq", "curl", "jq", "bash_5.2"]);
    assert_eq!(body, "body");
    assert_eq!(args.pure, false);
    assert_eq!(args.command, "bash");
    assert!(args.nix_option.is_empty());
    assert!(args.registry.is_empty());
}

#[test]
fn last_pure_and_last_command_count() {
    let text = "#!x\n#!command python3\n#!pure\n#!command zsh\n#!pure\n#!command fish\n\nbody";
    let (args, _) = parse_nix_runner_file(text).unwrap();
    assert_eq!(args.pure, true);
    assert_eq!(args.command, "fish");
}

#[test]
fn option_line_gives_one_option() {
    let text = "#!x\n#!nix-option experimental-features flakes\n\nbody";
    let (args, _) = parse_nix_runner_file(text).unwrap();
    assert_eq!(
        args.nix_option,
        vec![NixOption { key: "experimental-features".to_string(), value: "flakes".to_string() }]
    );
}

#[test]
fn registry_line_accepts_url_characters() {
    let text = "#!x\n#!registry nixpkgs github:NixOS/nixpkgs/abc123?dir=modules\n\nbody";
    let (args, _) = parse_nix_runner_file(text).unwrap();
    assert_eq!(
        args.registry,
        vec![NixRegistryRef {
            old_ref: "nixpkgs".to_string(),
            new_ref: "github:NixOS/nixpkgs/abc123?dir=modules".to_string(),
        }]
    );
}

#[test]
fn option_without_value_is_malformed() {
    let text = "#!x\n#!nix-option onlykey\n\nbody";
    assert_eq!(parse_nix_runner_file(text), Err(ParseError::MalformedArgument));
    assert_eq!(
        parse_nix_runner_file("#!x\n#!nix-option onlykey"),
        Err(ParseError::MalformedArgument)
    );
}

#[test]
fn header_without_blank_line_misses_terminator() {
    assert_eq!(
        parse_nix_runner_file("#!x\n#!package bash\n#!command bash"),
        Err(ParseError::MissingTerminator)
    );
    assert_eq!(
        parse_nix_runner_file("#!x\n#!package bash\n#!command bash\n"),
        Err(ParseError::MissingTerminator)
    );
    assert_eq!(parse_nix_runner_file("#!x\n"), Err(ParseError::MissingTerminator));
    assert_eq!(parse_nix_runner_file("#!x"), Err(ParseError::MissingTerminator));
    assert_eq!(parse_nix_runner_file("#!"), Err(ParseError::MissingTerminator));
}

#[test]
fn directive_block_ends_at_first_line_that_is_no_directive() {
    let text = "#!/usr/bin/env bash\n#!package bash\n#!command bash\nset -euo pipefail\n";
    let header = skip_line(text).unwrap();
    let results = many_arg_match(header);
    let expected = Ok((
        "\nset -euo pipefail\n",
        vec![
            ShebangArg::PackageLine("bash".to_string()),
            ShebangArg::CommandLine("bash".to_string()),
        ],
    ));
    assert_eq!(expected, results);
    assert_eq!(parse_nix_runner_file(text), Err(ParseError::UnknownDirective));
}

#[test]
fn text_without_marker_is_rejected() {
    assert_eq!(parse_nix_runner_file(""), Err(ParseError::MissingHeaderMarker));
    assert_eq!(parse_nix_runner_file("#"), Err(ParseError::MissingHeaderMarker));
    assert_eq!(parse_nix_runner_file("echo hi\n\n"), Err(ParseError::MissingHeaderMarker));
    assert_eq!(parse_nix_runner_file(" #!x\n\nbody"), Err(ParseError::MissingHeaderMarker));
    assert_eq!(parse_nix_runner_file("\u{e9}#!x\n\nbody"), Err(ParseError::MissingHeaderMarker));
}

#[test]
fn unknown_lines_are_rejected() {
    assert_eq!(
        parse_nix_runner_file("#!x\n#!frobnicate yes\n\nbody"),
        Err(ParseError::UnknownDirective)
    );
    assert_eq!(parse_nix_runner_file("#!x\n#!command\n\nbody"), Err(ParseError::UnknownDirective));
    assert_eq!(
        parse_nix_runner_file("#!x\n#!pure\n#!Package jq\n\nbody"),
        Err(ParseError::UnknownDirective)
    );
    assert_eq!(parse_nix_runner_file("#!x\nbody\n\n"), Err(ParseError::UnknownDirective));
    assert_eq!(parse_nix_runner_file("#!x\n \n\nbody"), Err(ParseError::UnknownDirective));
}

#[test]
fn malformed_arguments_are_rejected() {
    for text in [
        "#!x\n#!command \n\nbody",
        "#!x\n#!command ba$h\n\nbody",
        "#!x\n#!command bash zsh\n\nbody",
        "#!x\n#!package  jq\n\nbody",
        "#!x\n#!package j\u{e4}q\n\nbody",
        "#!x\n#!nix-option key  value\n\nbody",
        "#!x\n#!nix-option key value extra\n\nbody",
        "#!x\n#!nix-option key github:NixOS\n\nbody",
        "#!x\n#!registry nixpkgs\n\nbody",
        "#!x\n#!registry nixpkgs \n\nbody",
        "#!x\n#!purexyz\n\nbody",
        "#!x\n#!pure \n\nbody",
        "#!x\n#!pure\n#!command bash\rzsh\n\nbody",
    ] {
        assert_eq!(parse_nix_runner_file(text), Err(ParseError::MalformedArgument), "{:?}", text);
    }
}

#[test]
fn all_kinds_interleaved() {
    let text = "#!/usr/bin/env nix-runner\n\
                #!package jq\n\
                #!nix-option experimental-features flakes\n\
                #!registry nixpkgs github:NixOS/nixpkgs/abc123?dir=modules\n\
                #!pure\n\
                #!command python3\n\
                #!nix-option sandbox false\n\
                #!registry flake-utils path:/tmp/flake-utils\n\
                #!package curl\n\
                \n\
                import sys\n";
    let expected = NixRunnerArgs {
        pure: true,
        nix_option: vec![
            NixOption { key: "experimental-features".to_string(), value: "flakes".to_string() },
            NixOption { key: "sandbox".to_string(), value: "false".to_string() },
        ],
        registry: vec![
            NixRegistryRef {
                old_ref: "nixpkgs".to_string(),
                new_ref: "github:NixOS/nixpkgs/abc123?dir=modules".to_string(),
            },
            NixRegistryRef {
                old_ref: "flake-utils".to_string(),
                new_ref: "path:/tmp/flake-utils".to_string(),
            },
        ],
        package: vec!["jq".to_string(), "curl".to_string()],
        command: "python3".to_string(),
    };
    assert_eq!(parse_nix_runner_file(text), Ok((expected, "import sys\n")));
}

#[test]
fn windows_line_endings_in_the_header() {
    let text = "#!x\r\n#!pure\r\n#!package jq\r\n\r\nbody\r\n";
    let (args, body) = parse_nix_runner_file(text).unwrap();
    assert!(args.pure);
    assert_eq!(args.package, vec!["jq"]);
    assert_eq!(body, "body\r\n");
}

#[test]
fn same_text_gives_same_result() {
    let text = "#!x\n#!package jq\n#!command zsh\n\nbody";
    assert_eq!(parse_nix_runner_file(text), parse_nix_runner_file(text));
    let bad = "#!x\n#!package\n\nbody";
    assert_eq!(parse_nix_runner_file(bad), parse_nix_runner_file(bad));
}

#[test]
fn line_ending_is_newline_or_carriage_return_newline() {
    assert_eq!(line_ending("\nrest"), Some("rest"));
    assert_eq!(line_ending("\r\nrest"), Some("rest"));
    assert_eq!(line_ending("\n\n"), Some("\n"));
    assert_eq!(line_ending("\rrest"), None);
    assert_eq!(line_ending("\r"), None);
    assert_eq!(line_ending("rest\n"), None);
    assert_eq!(line_ending(""), None);
    assert_eq!(line_ending("\u{e9}\n"), None);
}

#[test]
fn skip_line_stops_after_first_newline() {
    assert_eq!(skip_line("abc\ndef\nghi"), Some("def\nghi"));
    assert_eq!(skip_line("abc\r\ndef"), Some("def"));
    assert_eq!(skip_line("\ndef"), Some("def"));
    assert_eq!(skip_line("abc\n"), Some(""));
    assert_eq!(skip_line("abc"), None);
    assert_eq!(skip_line("abc\r"), None);
    assert_eq!(skip_line(""), None);
    assert_eq!(skip_line("h\u{e9}llo \u{1f600}\nw\u{f6}rld"), Some("w\u{f6}rld"));
}

#[test]
fn blank_line_check() {
    assert_eq!(blank_line("\nbody"), Ok("body"));
    assert_eq!(blank_line("\r\nbody"), Ok("body"));
    assert_eq!(blank_line(""), Err(ParseError::MissingTerminator));
    assert_eq!(blank_line("body"), Err(ParseError::UnknownDirective));
    assert_eq!(blank_line("#!unknown\n"), Err(ParseError::UnknownDirective));
    assert_eq!(blank_line("#!package \n"), Err(ParseError::MalformedArgument));
    assert_eq!(blank_line("#!pure\n"), Err(ParseError::UnknownDirective));
}

#[test]
fn terminator_after_a_directive_needs_two_line_endings() {
    assert_eq!(terminator("\n\nbody", true), Ok("body"));
    assert_eq!(terminator("\r\n\nbody", true), Ok("body"));
    assert_eq!(terminator("\nbody", true), Err(ParseError::UnknownDirective));
    assert_eq!(terminator("\n", true), Err(ParseError::MissingTerminator));
    assert_eq!(terminator("", true), Err(ParseError::MissingTerminator));
    assert_eq!(terminator("$h\n\n", true), Err(ParseError::MalformedArgument));
    assert_eq!(terminator("\nbody", false), Ok("body"));
    assert_eq!(terminator("", false), Err(ParseError::MissingTerminator));
    assert_eq!(terminator("body", false), Err(ParseError::UnknownDirective));
}

#[test]
fn body_takes_everything() {
    assert_eq!(body("  a\nb\u{2603}\n\n"), ("", "  a\nb\u{2603}\n\n"));
    assert_eq!(body(""), ("", ""));
}

#[test]
fn end_of_input_rejects_leftovers() {
    assert_eq!(end_of_input(""), Ok(()));
    assert_eq!(end_of_input("x"), Err(ParseError::IncompleteConsumption));
    assert_eq!(end_of_input("\n"), Err(ParseError::IncompleteConsumption));
}

#[test]
fn long_header_and_body() {
    let mut text = String::from("#!/usr/bin/env nix-runner\n");
    let mut names = Vec::new();
    for n in 0..20000 {
        let name = format!("pkg-{}", n % 7);
        text.push_str("#!package ");
        text.push_str(&name);
        text.push('\n');
        names.push(name);
    }
    text.push('\n');
    let body = "echo \u{2603} line\n".repeat(50000);
    text.push_str(&body);
    let (args, rest) = parse_nix_runner_file(&text).unwrap();
    assert_eq!(args.package, names);
    assert_eq!(rest, body);
    assert_eq!(args.command, "bash");
}
