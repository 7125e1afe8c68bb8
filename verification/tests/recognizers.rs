use nix_runner::directive::{NixOption, NixRegistryRef, ShebangArg};
use nix_runner::error::ParseError;
use nix_runner::parser::{
    any_arg_match, command_identifier, command_match, comment_char, many_arg_match,
    nix_option_match, nix_registry_match, package_match, pure_match, shebang_commands,
    shebang_sequence,
};

#[test]
fn test_bash_comment() {
    let results = comment_char("#");
    assert_eq!(Ok(("", ())), results)
}

#[test]
fn test_bash_shebang() {
    let results = shebang_sequence("#!");
    assert_eq!(Ok(("", "#!")), results)
}

#[test]
fn test_bash_shebang_with_contents() {
    let results = shebang_commands("#!/usr/bin/env nix");
    assert_eq!(Ok(("", "/usr/bin/env nix")), results)
}

#[test]
fn test_pure_match() {
    let results = pure_match("#!pure").map(|(_, opt)| opt);
    let expected = Ok(ShebangArg::PureLine(true));
    assert_eq!(expected, results)
}

#[test]
fn test_command_match() {
    let results = command_match("#!command bash").map(|(_, opt)| opt);
    let expected = Ok(ShebangArg::CommandLine("bash".to_string()));
    assert_eq!(expected, results);
}

#[test]
fn test_package_match() {
    let results = package_match("#!package bash").map(|(_, opt)| opt);
    let expected = Ok(ShebangArg::PackageLine("bash".to_string()));
    assert_eq!(expected, results)
}

#[test]
fn test_registry_match() {
    let old_ref = "nixpkgs".to_string();
    let new_ref =
        "github:NixOS/nixpkgs/0080a93cdf255b27e466116250b14b2bcd7b843b?dir=modules".to_string();
    let shebang_line = format!("#!registry {} {}", old_ref, new_ref);

    let results = nix_registry_match(shebang_line.as_str()).map(|(_, opt)| opt);
    let expected = Ok(ShebangArg::NixRegistryLine(NixRegistryRef {
        old_ref,
        new_ref,
    }));
    assert_eq!(expected, results)
}

#[test]
fn test_option_match() {
    let key = "experimental-features".to_string();
    let value = "flakes".to_string();
    let shebang_line = format!("#!nix-option {} {}", key, value);
    let results = nix_option_match(shebang_line.as_str()).map(|(_, opt)| opt);
    let expected = Ok(ShebangArg::NixOptionLine(NixOption { key, value }));
    assert_eq!(expected, results)
}

#[test]
fn test_any_arg_match() {
    let results = any_arg_match("#!command bash").map(|(_, opt)| opt);
    let expected = Ok(ShebangArg::CommandLine("bash".to_string()));
    assert_eq!(expected, results);
}

#[test]
fn test_many_arg_match() {
    let results = many_arg_match("#!package bash\n#!command bash\nset -euox pipefail");
    let expected = Ok((
        "\nset -euox pipefail",
        vec![
            ShebangArg::PackageLine("bash".to_string()),
            ShebangArg::CommandLine("bash".to_string()),
        ],
    ));
    assert_eq!(expected, results)
}

#[test]
fn test_parses_simple_file() {
    let parse: Result<(&str, String), ParseError> = command_identifier("-273.15");
    assert_eq!(parse, Ok(("", "-273.15".to_string())))
}
