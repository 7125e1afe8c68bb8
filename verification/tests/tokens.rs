use nix_runner::alphabet::{plain_identifier_char, reference_char, Alphabet};
use nix_runner::directive::{NixOption, NixRegistryRef, ShebangArg};
use nix_runner::error::ParseError;
use nix_runner::parser::{
    any_arg_match, command_identifier, command_match, comment_char, many_arg_match,
    nix_option_match, nix_registry_match, nix_url_reference_identifier, package_identifier,
    package_match, pure_match, shebang_commands, shebang_sequence,
};

#[test]
fn plain_identifier_alphabet() {
    for c in ['a', 'm', 'z', 'A', 'Q', 'Z', '0', '5', '9', '-', '_', '.'] {
        assert!(plain_identifier_char(c), "{:?}", c);
        assert!(Alphabet::Identifier.accepts(c), "{:?}", c);
    }
    for c in [
        ':', '/', '?', '=', ' ', '\n', '\r', '\t', '#', '!', '$', '@', '`', '[', '{', '~', '+',
        ',', '\0', '\u{7f}', '\u{e9}', '\u{df}', '\u{3b1}', '\u{661}', '\u{ff11}', '\u{1f600}',
    ] {
        assert!(!plain_identifier_char(c), "{:?}", c);
        assert!(!Alphabet::Identifier.accepts(c), "{:?}", c);
    }
}

#[test]
fn reference_alphabet() {
    for c in ['a', 'Z', '0', '9', '-', '_', '.', ':', '/', '?', '='] {
        assert!(reference_char(c), "{:?}", c);
        assert!(Alphabet::Reference.accepts(c), "{:?}", c);
    }
    for c in [' ', '\n', '\r', '#', '!', '&', '%', '@', ';', '\\', '\u{e9}', '\u{1f600}'] {
        assert!(!reference_char(c), "{:?}", c);
        assert!(!Alphabet::Reference.accepts(c), "{:?}", c);
    }
}

#[test]
fn alphabets_on_every_ascii_character() {
    for code in 0u8..128 {
        let c = code as char;
        let plain = c.is_ascii_alphanumeric() || "-_.".contains(c);
        let reference = plain || ":/?=".contains(c);
        assert_eq!(plain_identifier_char(c), plain, "{:?}", c);
        assert_eq!(reference_char(c), reference, "{:?}", c);
    }
}

#[test]
fn identifier_is_longest_run() {
    assert_eq!(command_identifier("bash"), Ok(("", "bash".to_string())));
    assert_eq!(command_identifier("bash rest"), Ok((" rest", "bash".to_string())));
    assert_eq!(command_identifier("python3.11\n#!"), Ok(("\n#!", "python3.11".to_string())));
    assert_eq!(command_identifier("a:b"), Ok((":b", "a".to_string())));
    assert_eq!(command_identifier("h\u{e9}llo"), Ok(("\u{e9}llo", "h".to_string())));
    assert_eq!(command_identifier("_-.x"), Ok(("", "_-.x".to_string())));
    assert_eq!(package_identifier("gnu-sed 4"), Ok((" 4", "gnu-sed".to_string())));
}

#[test]
fn empty_identifier_is_rejected() {
    assert_eq!(command_identifier(""), Err(ParseError::MalformedArgument));
    assert_eq!(command_identifier(" bash"), Err(ParseError::MalformedArgument));
    assert_eq!(command_identifier(":bash"), Err(ParseError::MalformedArgument));
    assert_eq!(command_identifier("\u{e9}"), Err(ParseError::MalformedArgument));
    assert_eq!(package_identifier("\nbash"), Err(ParseError::MalformedArgument));
}

#[test]
fn reference_is_longest_run() {
    assert_eq!(
        nix_url_reference_identifier("github:NixOS/nixpkgs/abc123?dir=modules next"),
        Ok((" next", "github:NixOS/nixpkgs/abc123?dir=modules".to_string()))
    );
    assert_eq!(nix_url_reference_identifier("a&b"), Ok(("&b", "a".to_string())));
    assert_eq!(nix_url_reference_identifier(""), Err(ParseError::MalformedArgument));
    assert_eq!(nix_url_reference_identifier("#x"), Err(ParseError::MalformedArgument));
}

#[test]
fn marker_recognizers() {
    assert_eq!(comment_char("#!pure"), Ok(("!pure", ())));
    assert_eq!(comment_char("!#"), Err(ParseError::MissingHeaderMarker));
    assert_eq!(comment_char(""), Err(ParseError::MissingHeaderMarker));
    assert_eq!(shebang_sequence("#!pure\nx"), Ok(("pure\nx", "#!")));
    assert_eq!(shebang_sequence("#pure"), Err(ParseError::MissingHeaderMarker));
    assert_eq!(shebang_sequence("#"), Err(ParseError::MissingHeaderMarker));
    assert_eq!(shebang_sequence(""), Err(ParseError::MissingHeaderMarker));
    assert_eq!(shebang_commands("#!"), Ok(("", "")));
    assert_eq!(shebang_commands("#!a\nb"), Ok(("", "a\nb")));
    assert_eq!(shebang_commands("a"), Err(ParseError::MissingHeaderMarker));
}

#[test]
fn recognizers_leave_the_rest() {
    assert_eq!(pure_match("#!pure\n#!x"), Ok(("\n#!x", ShebangArg::PureLine(true))));
    assert_eq!(pure_match("#!purexyz"), Ok(("xyz", ShebangArg::PureLine(true))));
    assert_eq!(
        command_match("#!command zsh\n\nbody"),
        Ok(("\n\nbody", ShebangArg::CommandLine("zsh".to_string())))
    );
    assert_eq!(
        package_match("#!package jq curl"),
        Ok((" curl", ShebangArg::PackageLine("jq".to_string())))
    );
    assert_eq!(
        nix_option_match("#!nix-option a b c"),
        Ok((
            " c",
            ShebangArg::NixOptionLine(NixOption { key: "a".to_string(), value: "b".to_string() })
        ))
    );
    assert_eq!(
        nix_registry_match("#!registry a:b c/d\r\n"),
        Ok((
            "\r\n",
            ShebangArg::NixRegistryLine(NixRegistryRef {
                old_ref: "a:b".to_string(),
                new_ref: "c/d".to_string()
            })
        ))
    );
}

#[test]
fn recognizers_say_why_they_fail() {
    assert_eq!(pure_match("pure"), Err(ParseError::MissingHeaderMarker));
    assert_eq!(pure_match("#!pur"), Err(ParseError::UnknownDirective));
    assert_eq!(pure_match("#! pure"), Err(ParseError::UnknownDirective));
    assert_eq!(command_match("command bash"), Err(ParseError::MissingHeaderMarker));
    assert_eq!(command_match("#!package bash"), Err(ParseError::UnknownDirective));
    assert_eq!(command_match("#!command"), Err(ParseError::UnknownDirective));
    assert_eq!(command_match("#!command "), Err(ParseError::MalformedArgument));
    assert_eq!(command_match("#!command  bash"), Err(ParseError::MalformedArgument));
    assert_eq!(package_match("#!command bash"), Err(ParseError::UnknownDirective));
    assert_eq!(package_match("#!package /nix"), Err(ParseError::MalformedArgument));
    assert_eq!(nix_option_match("#!nix-option onlykey"), Err(ParseError::MalformedArgument));
    assert_eq!(nix_option_match("#!nix-option key "), Err(ParseError::MalformedArgument));
    assert_eq!(nix_option_match("#!nix-option key\tvalue"), Err(ParseError::MalformedArgument));
    assert_eq!(nix_option_match("#!nix-option"), Err(ParseError::UnknownDirective));
    assert_eq!(nix_option_match("#!nix_option a b"), Err(ParseError::UnknownDirective));
    assert_eq!(nix_registry_match("#!registry old"), Err(ParseError::MalformedArgument));
    assert_eq!(nix_registry_match("#!registry  old new"), Err(ParseError::MalformedArgument));
    assert_eq!(nix_registry_match("#!registries a b"), Err(ParseError::UnknownDirective));
    assert_eq!(nix_registry_match(""), Err(ParseError::MissingHeaderMarker));
}

#[test]
fn dispatcher_finds_each_kind() {
    assert_eq!(any_arg_match("#!pure"), Ok(("", ShebangArg::PureLine(true))));
    assert_eq!(
        any_arg_match("#!package jq\n"),
        Ok(("\n", ShebangArg::PackageLine("jq".to_string())))
    );
    assert_eq!(
        any_arg_match("#!command zsh"),
        Ok(("", ShebangArg::CommandLine("zsh".to_string())))
    );
    assert_eq!(
        any_arg_match("#!nix-option k v"),
        Ok((
            "",
            ShebangArg::NixOptionLine(NixOption { key: "k".to_string(), value: "v".to_string() })
        ))
    );
    assert_eq!(
        any_arg_match("#!registry o n"),
        Ok((
            "",
            ShebangArg::NixRegistryLine(NixRegistryRef {
                old_ref: "o".to_string(),
                new_ref: "n".to_string()
            })
        ))
    );
}

#[test]
fn dispatcher_says_why_it_fails() {
    assert_eq!(any_arg_match(""), Err(ParseError::MissingHeaderMarker));
    assert_eq!(any_arg_match("pure"), Err(ParseError::MissingHeaderMarker));
    assert_eq!(any_arg_match("\n#!pure"), Err(ParseError::MissingHeaderMarker));
    assert_eq!(any_arg_match("#!"), Err(ParseError::UnknownDirective));
    assert_eq!(any_arg_match("#!/usr/bin/env bash"), Err(ParseError::UnknownDirective));
    assert_eq!(any_arg_match("#!PURE"), Err(ParseError::UnknownDirective));
    assert_eq!(any_arg_match("#!commands x"), Err(ParseError::UnknownDirective));
    assert_eq!(any_arg_match("#!command \n"), Err(ParseError::MalformedArgument));
    assert_eq!(any_arg_match("#!package "), Err(ParseError::MalformedArgument));
    assert_eq!(any_arg_match("#!nix-option onlykey"), Err(ParseError::MalformedArgument));
    assert_eq!(any_arg_match("#!registry a"), Err(ParseError::MalformedArgument));
}

#[test]
fn aggregator_never_fails() {
    assert_eq!(many_arg_match(""), Ok(("", vec![])));
    assert_eq!(many_arg_match("\nbody"), Ok(("\nbody", vec![])));
    assert_eq!(many_arg_match("#!frob\n"), Ok(("#!frob\n", vec![])));
    assert_eq!(many_arg_match("#!pure"), Ok(("", vec![ShebangArg::PureLine(true)])));
    assert_eq!(many_arg_match("#!pure\n"), Ok(("\n", vec![ShebangArg::PureLine(true)])));
    assert_eq!(
        many_arg_match("#!pure\n\n#!pure\n"),
        Ok(("\n\n#!pure\n", vec![ShebangArg::PureLine(true)]))
    );
    assert_eq!(
        many_arg_match("#!pure\r\n#!pure\n#!package \n"),
        Ok(("\n#!package \n", vec![ShebangArg::PureLine(true), ShebangArg::PureLine(true)]))
    );
    assert_eq!(
        many_arg_match("#!package a#!package b"),
        Ok(("#!package b", vec![ShebangArg::PackageLine("a".to_string())]))
    );
}
