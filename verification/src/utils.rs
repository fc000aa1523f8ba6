//! The whole run, for the Rust backend with its default options.

use crate::code_gen::abi::output::Emission;
use crate::code_gen::error::GenError;
use crate::code_gen::generator::{emissions_view, generated, CodeGenerator};
use crate::code_gen::rust::context::RustContext;
use crate::code_gen::rust::options::{RustOptions, RustOptionsView};
use crate::code_gen::rust::{lemma_generated_by_options, RustProvider};
use crate::code_gen::utils::definition_views;
use crate::definitions::Definition;
use vstd::prelude::*;

verus! {

/// Generates Rust for the definitions, to be written under the output
/// directory, with all the types of a package in one file.
pub fn compile(definitions: &Vec<Definition>, output: &str) -> (r: Result<Vec<Emission>, GenError>)
    ensures
        forall|provider: RustProvider|
            provider.options()@ == (RustOptionsView { output_dir: output@, single_file: true })
                ==> emissions_view(r) == #[trigger] generated(provider, definition_views(definitions@)),
{
    let options = RustOptions::new(output.to_owned());
    let config = RustProvider::new(options);
    let generator: CodeGenerator<RustContext, RustProvider> = CodeGenerator::new(config);
    let r = generator.generate(definitions);
    proof {
        assert forall|provider: RustProvider|
            provider.options()@ == (RustOptionsView { output_dir: output@, single_file: true }) implies emissions_view(
            r,
        ) == #[trigger] generated(provider, definition_views(definitions@)) by {
            lemma_generated_by_options(config, provider, definition_views(definitions@));
        }
    }
    r
}

} // verus!
