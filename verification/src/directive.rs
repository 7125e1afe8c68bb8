//! Directives: what one line of the header block says.

use crate::alphabet::Alphabet;
use vstd::prelude::*;

verus! {

/// One directive, as a mathematical value: the model of [`ShebangArg`].
pub enum Directive {
    /// `#!pure`: run in a pure environment. The line carries no payload, so a
    /// recognised line always holds `true`.
    Purity(bool),
    /// `#!nix-option <key> <value>`: one extra option.
    NixOption { key: Seq<char>, value: Seq<char> },
    /// `#!registry <old-ref> <new-ref>`: one registry override.
    Registry { old_ref: Seq<char>, new_ref: Seq<char> },
    /// `#!package <name>`: one required package.
    Package(Seq<char>),
    /// `#!command <name>`: the interpreter to run the body with.
    Command(Seq<char>),
}

impl Directive {
    /// Every argument is a token of the alphabet of its kind: identifiers for
    /// options, packages and commands, references for registries.
    pub open spec fn wf(self) -> bool {
        match self {
            Directive::Purity(_) => true,
            Directive::NixOption { key, value } => {
                &&& Alphabet::Identifier.is_token(key)
                &&& Alphabet::Identifier.is_token(value)
            },
            Directive::Registry { old_ref, new_ref } => {
                &&& Alphabet::Reference.is_token(old_ref)
                &&& Alphabet::Reference.is_token(new_ref)
            },
            Directive::Package(name) => Alphabet::Identifier.is_token(name),
            Directive::Command(name) => Alphabet::Identifier.is_token(name),
        }
    }
}

/// An extra option for the tool that builds the environment.
#[derive(Debug, PartialEq, Clone)]
pub struct NixOption {
    pub key: String,
    pub value: String,
}

/// A registry override: `old_ref` is to be resolved as `new_ref`.
#[derive(Debug, PartialEq, Clone)]
pub struct NixRegistryRef {
    pub old_ref: String,
    pub new_ref: String,
}

/// One directive of the header block.
#[derive(Debug, PartialEq, Clone)]
pub enum ShebangArg {
    PureLine(bool),
    NixOptionLine(NixOption),
    NixRegistryLine(NixRegistryRef),
    PackageLine(String),
    CommandLine(String),
}

impl View for NixOption {
    type V = (Seq<char>, Seq<char>);

    open spec fn view(&self) -> (Seq<char>, Seq<char>) {
        (self.key@, self.value@)
    }
}

impl DeepView for NixOption {
    type V = (Seq<char>, Seq<char>);

    open spec fn deep_view(&self) -> (Seq<char>, Seq<char>) {
        self@
    }
}

impl View for NixRegistryRef {
    type V = (Seq<char>, Seq<char>);

    open spec fn view(&self) -> (Seq<char>, Seq<char>) {
        (self.old_ref@, self.new_ref@)
    }
}

impl DeepView for NixRegistryRef {
    type V = (Seq<char>, Seq<char>);

    open spec fn deep_view(&self) -> (Seq<char>, Seq<char>) {
        self@
    }
}

impl View for ShebangArg {
    type V = Directive;

    open spec fn view(&self) -> Directive {
        match self {
            ShebangArg::PureLine(purity) => Directive::Purity(*purity),
            ShebangArg::NixOptionLine(option) => Directive::NixOption {
                key: option.key@,
                value: option.value@,
            },
            ShebangArg::NixRegistryLine(registry_ref) => Directive::Registry {
                old_ref: registry_ref.old_ref@,
                new_ref: registry_ref.new_ref@,
            },
            ShebangArg::PackageLine(package) => Directive::Package(package@),
            ShebangArg::CommandLine(command) => Directive::Command(command@),
        }
    }
}

impl DeepView for ShebangArg {
    type V = Directive;

    open spec fn deep_view(&self) -> Directive {
        self@
    }
}

} // verus!
