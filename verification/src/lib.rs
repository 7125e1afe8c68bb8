//! Reads the header of a runnable nix script: the block of `#!` lines at the
//! top of the file that says how the script is to be run.
//!
//! ```text
//! #!/usr/bin/env nix-runner
//! #!pure
//! #!package jq
//! #!nix-option experimental-features flakes
//! #!registry nixpkgs github:NixOS/nixpkgs/abc123
//! #!command bash
//!
//! jq --version
//! ```
//!
//! [`parser::parse_nix_runner_file`] turns such a text into a
//! [`config::NixRunnerArgs`] and the body that follows the blank line.
//! [`grammar`] states, over sequences of characters, what every recognizer
//! returns; [`laws`] states what follows for all texts.

pub mod alphabet;
pub mod config;
pub mod directive;
pub mod error;
pub mod grammar;
pub mod laws;
pub mod parser;
pub mod rendering;
mod text;
