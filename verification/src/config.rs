//! The configuration that a header block amounts to, and the fold that
//! produces it.

use crate::alphabet::Alphabet;
use crate::directive::{Directive, NixOption, NixRegistryRef, ShebangArg};
use crate::rendering::packages;
use vstd::prelude::*;

verus! {

/// How a script is to be run, as a mathematical value: the model of
/// [`NixRunnerArgs`].
pub struct RunnerConfiguration {
    /// Whether the environment is pure.
    pub pure: bool,
    /// The extra options, as pairs of key and value, in the order of their
    /// lines.
    pub options: Seq<(Seq<char>, Seq<char>)>,
    /// The registry overrides, as pairs of old and new locator, in the order
    /// of their lines.
    pub registries: Seq<(Seq<char>, Seq<char>)>,
    /// The required packages, in the order of their lines.
    pub packages: Seq<Seq<char>>,
    /// The interpreter to run the body with.
    pub command: Seq<char>,
}

impl RunnerConfiguration {
    /// What applies where the header block is empty: impure, no options,
    /// overrides or packages, run with `bash`.
    pub open spec fn initial() -> RunnerConfiguration {
        RunnerConfiguration {
            pure: false,
            options: Seq::empty(),
            registries: Seq::empty(),
            packages: Seq::empty(),
            command: "bash"@,
        }
    }

    /// The configuration after one more directive: purity and command replace
    /// what was there, the other three are appended.
    pub open spec fn apply(self, directive: Directive) -> RunnerConfiguration {
        match directive {
            Directive::Purity(purity) => RunnerConfiguration { pure: purity, ..self },
            Directive::NixOption { key, value } => RunnerConfiguration {
                options: self.options.push((key, value)),
                ..self
            },
            Directive::Registry { old_ref, new_ref } => RunnerConfiguration {
                registries: self.registries.push((old_ref, new_ref)),
                ..self
            },
            Directive::Package(name) => RunnerConfiguration {
                packages: self.packages.push(name),
                ..self
            },
            Directive::Command(name) => RunnerConfiguration { command: name, ..self },
        }
    }

    /// The left-to-right fold of `directives` from the initial configuration.
    pub open spec fn reduce(directives: Seq<Directive>) -> RunnerConfiguration
        decreases directives.len(),
    {
        if directives.len() == 0 {
            RunnerConfiguration::initial()
        } else {
            RunnerConfiguration::reduce(directives.drop_last()).apply(directives.last())
        }
    }

    /// Every string of the configuration is a token of the alphabet of its
    /// field.
    pub open spec fn wf(self) -> bool {
        &&& forall|i: int|
            0 <= i < self.options.len() ==> Alphabet::Identifier.is_token(
                (#[trigger] self.options[i]).0,
            ) && Alphabet::Identifier.is_token(self.options[i].1)
        &&& forall|i: int|
            0 <= i < self.registries.len() ==> Alphabet::Reference.is_token(
                (#[trigger] self.registries[i]).0,
            ) && Alphabet::Reference.is_token(self.registries[i].1)
        &&& forall|i: int|
            0 <= i < self.packages.len() ==> Alphabet::Identifier.is_token(
                #[trigger] self.packages[i],
            )
        &&& Alphabet::Identifier.is_token(self.command)
    }
}

/// How a script is to be run.
#[derive(Debug, PartialEq)]
pub struct NixRunnerArgs {
    /// `#!pure`: optional, the last one counts.
    pub pure: bool,
    /// `#!nix-option <key> <value>`: optional, repeated.
    pub nix_option: Vec<NixOption>,
    /// `#!registry <old-ref> <new-ref>`: optional, repeated.
    pub registry: Vec<NixRegistryRef>,
    /// `#!package <pkg-name>`: optional, repeated.
    pub package: Vec<String>,
    /// `#!command <cmd-name>`: optional, the last one counts.
    pub command: String,
}

impl View for NixRunnerArgs {
    type V = RunnerConfiguration;

    open spec fn view(&self) -> RunnerConfiguration {
        RunnerConfiguration {
            pure: self.pure,
            options: self.nix_option.deep_view(),
            registries: self.registry.deep_view(),
            packages: self.package.deep_view(),
            command: self.command@,
        }
    }
}

impl DeepView for NixRunnerArgs {
    type V = RunnerConfiguration;

    open spec fn deep_view(&self) -> RunnerConfiguration {
        self@
    }
}

impl Default for NixRunnerArgs {
    fn default() -> (r: Self)
        ensures
            r@ == RunnerConfiguration::initial(),
            r@.wf(),
    {
        proof {
            law_reduce_is_well_formed(Seq::empty());
        }
        let r = NixRunnerArgs {
            pure: false,
            nix_option: Vec::new(),
            registry: Vec::new(),
            package: Vec::new(),
            command: "bash".to_owned(),
        };
        assert(r@.options =~= Seq::empty());
        assert(r@.registries =~= Seq::empty());
        assert(r@.packages =~= Seq::empty());
        r
    }
}

impl NixRunnerArgs {
    /// The configuration after one more directive.
    pub fn apply(self, arg: ShebangArg) -> (r: Self)
        ensures
            r@ == self@.apply(arg@),
            self@.wf() && arg@.wf() ==> r@.wf(),
    {
        let mut r = self;
        match arg {
            ShebangArg::PureLine(purity) => {
                r.pure = purity;
            },
            ShebangArg::NixOptionLine(option) => {
                r.nix_option.push(option);
                assert(r@.options =~= self@.options.push(option@));
            },
            ShebangArg::NixRegistryLine(registry_ref) => {
                r.registry.push(registry_ref);
                assert(r@.registries =~= self@.registries.push(registry_ref@));
            },
            ShebangArg::PackageLine(package) => {
                r.package.push(package);
                assert(r@.packages =~= self@.packages.push(package@));
            },
            ShebangArg::CommandLine(command) => {
                r.command = command;
            },
        }
        r
    }

    /// Folds `args`, in their order, into one configuration, starting from the
    /// default.
    pub fn from_directives(args: Vec<ShebangArg>) -> (r: Self)
        ensures
            r@ == RunnerConfiguration::reduce(args.deep_view()),
            (forall|k: int| 0 <= k < args.len() ==> (#[trigger] args[k])@.wf()) ==> r@.wf(),
    {
        proof {
            if forall|k: int| 0 <= k < args.len() ==> (#[trigger] args[k])@.wf() {
                assert forall|k: int| 0 <= k < args.deep_view().len() implies (
                #[trigger] args.deep_view()[k]).wf() by {
                    assert(args[k]@.wf());
                }
                law_reduce_is_well_formed(args.deep_view());
            }
        }
        let mut r = NixRunnerArgs::default();
        let ghost all = args.deep_view();
        let ghost mut done: int = 0;
        for arg in it: args
            invariant
                all == args.deep_view(),
                0 <= done <= all.len(),
                done == it.index(),
                it.seq() == args@,
                r@ == RunnerConfiguration::reduce(all.take(done)),
        {
            proof {
                assert(all.take(done + 1).drop_last() =~= all.take(done));
                assert(all.take(done + 1).last() == arg@);
                done = done + 1;
            }
            r = r.apply(arg);
        }
        assert(all.take(done) =~= all);
        r
    }
}

/// The names that the package directives among `directives` state, in their
/// order.
pub open spec fn package_names(directives: Seq<Directive>) -> Seq<Seq<char>> {
    directives.filter(|d: Directive| d is Package).map_values(|d: Directive| d->Package_0)
}

/// The pairs of key and value that the option directives among `directives`
/// state, in their order.
pub open spec fn option_pairs(directives: Seq<Directive>) -> Seq<(Seq<char>, Seq<char>)> {
    directives.filter(|d: Directive| d is NixOption).map_values(
        |d: Directive| (d->key, d->value),
    )
}

/// The pairs of old and new locator that the registry directives among
/// `directives` state, in their order.
pub open spec fn registry_pairs(directives: Seq<Directive>) -> Seq<(Seq<char>, Seq<char>)> {
    directives.filter(|d: Directive| d is Registry).map_values(
        |d: Directive| (d->old_ref, d->new_ref),
    )
}

/// The repeatable fields hold every occurrence, in the order of the
/// directives, with nothing dropped and nothing merged.
pub proof fn law_repeatable_fields_accumulate(directives: Seq<Directive>)
    ensures
        RunnerConfiguration::reduce(directives).packages == package_names(directives),
        RunnerConfiguration::reduce(directives).options == option_pairs(directives),
        RunnerConfiguration::reduce(directives).registries == registry_pairs(directives),
    decreases directives.len(),
{
    reveal(Seq::filter);
    let reduced = RunnerConfiguration::reduce(directives);
    if directives.len() == 0 {
        assert(package_names(directives) =~= Seq::empty());
        assert(option_pairs(directives) =~= Seq::empty());
        assert(registry_pairs(directives) =~= Seq::empty());
    } else {
        law_repeatable_fields_accumulate(directives.drop_last());
        assert(reduced.packages =~= package_names(directives));
        assert(reduced.options =~= option_pairs(directives));
        assert(reduced.registries =~= registry_pairs(directives));
    }
}

/// Folding package directives alone leaves the defaults but for the
/// packages, which are the names in their order.
pub proof fn lemma_reduce_packages(names: Seq<Seq<char>>)
    ensures
        RunnerConfiguration::reduce(packages(names)) == (RunnerConfiguration {
            packages: names,
            ..RunnerConfiguration::initial()
        }),
    decreases names.len(),
{
    if names.len() == 0 {
        assert(names =~= Seq::empty());
    } else {
        assert(packages(names).drop_last() =~= packages(names.drop_last()));
        lemma_reduce_packages(names.drop_last());
        assert(names.drop_last().push(names.last()) =~= names);
    }
}

/// The command is the one that the last command directive names.
pub proof fn law_last_command_counts(directives: Seq<Directive>, last: int)
    requires
        0 <= last < directives.len(),
        directives[last] is Command,
        forall|j: int| last < j < directives.len() ==> !(#[trigger] directives[j] is Command),
    ensures
        RunnerConfiguration::reduce(directives).command == directives[last]->Command_0,
    decreases directives.len(),
{
    if last < directives.len() - 1 {
        assert(!(directives[directives.len() - 1] is Command));
        law_last_command_counts(directives.drop_last(), last);
    }
}

/// Without a command directive the command is `bash`.
pub proof fn law_command_defaults_to_bash(directives: Seq<Directive>)
    requires
        forall|j: int| 0 <= j < directives.len() ==> !(#[trigger] directives[j] is Command),
    ensures
        RunnerConfiguration::reduce(directives).command == "bash"@,
    decreases directives.len(),
{
    if directives.len() > 0 {
        assert(!(directives[directives.len() - 1] is Command));
        law_command_defaults_to_bash(directives.drop_last());
    }
}

/// The purity is the one that the last purity directive holds.
pub proof fn law_last_purity_counts(directives: Seq<Directive>, last: int)
    requires
        0 <= last < directives.len(),
        directives[last] is Purity,
        forall|j: int| last < j < directives.len() ==> !(#[trigger] directives[j] is Purity),
    ensures
        RunnerConfiguration::reduce(directives).pure == directives[last]->Purity_0,
    decreases directives.len(),
{
    if last < directives.len() - 1 {
        assert(!(directives[directives.len() - 1] is Purity));
        law_last_purity_counts(directives.drop_last(), last);
    }
}

/// Without a purity directive the environment is impure.
pub proof fn law_purity_defaults_to_impure(directives: Seq<Directive>)
    requires
        forall|j: int| 0 <= j < directives.len() ==> !(#[trigger] directives[j] is Purity),
    ensures
        !RunnerConfiguration::reduce(directives).pure,
    decreases directives.len(),
{
    if directives.len() > 0 {
        assert(!(directives[directives.len() - 1] is Purity));
        law_purity_defaults_to_impure(directives.drop_last());
    }
}

/// Folding well-formed directives gives a well-formed configuration.
pub proof fn law_reduce_is_well_formed(directives: Seq<Directive>)
    requires
        forall|i: int| 0 <= i < directives.len() ==> (#[trigger] directives[i]).wf(),
    ensures
        RunnerConfiguration::reduce(directives).wf(),
    decreases directives.len(),
{
    reveal_strlit("bash");
    if directives.len() > 0 {
        let before = directives.drop_last();
        assert forall|i: int| 0 <= i < before.len() implies (#[trigger] before[i]).wf() by {
            assert(before[i] == directives[i]);
        }
        law_reduce_is_well_formed(before);
        assert(directives.last().wf());
    }
}

} // verus!
