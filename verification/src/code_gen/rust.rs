//! The backend that writes Rust.

pub mod context;
pub mod cycle_groups;
pub mod options;
pub mod package_writer;
pub mod pre_processor;
pub mod reach;
pub mod scc;
pub mod type_graph;
pub mod type_writer;

use crate::code_gen::abi::type_dict::has_name;
use crate::code_gen::abi::type_info::TypeInfoView;
use crate::code_gen::abi::{CodeGenProvider, PreProcessor};
use crate::code_gen::generator::{
    generated, members, package_head, package_names, packages_emissions, type_text,
    types_emissions,
};
use crate::code_gen::rust::context::{lemma_missing_reference_fails, RustContextView};
use crate::code_gen::utils::{add_definitions, type_dict_of};
use crate::definitions::DefinitionView;
use crate::code_gen::rust::context::RustContext;
use crate::code_gen::rust::options::RustOptions;
use crate::code_gen::rust::package_writer::RustPackageWriter;
use crate::code_gen::rust::pre_processor::RustPreProcessor;
use crate::code_gen::rust::type_writer::RustTypeWriter;
use vstd::prelude::*;

verus! {

/// The Rust backend.
pub struct RustProvider {
    options: RustOptions,
}

impl RustProvider {
    pub closed spec fn options(&self) -> RustOptions {
        self.options
    }

    pub fn new(options: RustOptions) -> (r: Self)
        ensures
            r.options() == options,
    {
        Self { options }
    }
}

impl CodeGenProvider<RustContext> for RustProvider {
    type Pre = RustPreProcessor;

    type Package = RustPackageWriter;

    type Object = RustTypeWriter;

    type Enum = RustTypeWriter;

    type ObjectEnum = RustTypeWriter;

    type List = RustTypeWriter;

    type Mapping = RustTypeWriter;

    open spec fn pre_processor(&self) -> RustPreProcessor {
        RustPreProcessor { options: self.options() }
    }

    open spec fn package_writer(&self) -> Option<RustPackageWriter> {
        Some(RustPackageWriter {  })
    }

    open spec fn object_writer(&self) -> RustTypeWriter {
        RustTypeWriter {  }
    }

    open spec fn enum_writer(&self) -> RustTypeWriter {
        RustTypeWriter {  }
    }

    open spec fn object_enum_writer(&self) -> RustTypeWriter {
        RustTypeWriter {  }
    }

    open spec fn list_writer(&self) -> RustTypeWriter {
        RustTypeWriter {  }
    }

    open spec fn map_writer(&self) -> RustTypeWriter {
        RustTypeWriter {  }
    }

    fn get_pre_processor(&self) -> (r: RustPreProcessor) {
        RustPreProcessor { options: self.options.clone() }
    }

    fn get_package_writer(&self) -> (r: Option<RustPackageWriter>) {
        Some(RustPackageWriter {  })
    }

    fn get_object_writer(&self) -> (r: RustTypeWriter) {
        RustTypeWriter {  }
    }

    fn get_enum_writer(&self) -> (r: RustTypeWriter) {
        RustTypeWriter {  }
    }

    fn get_object_enum_writer(&self) -> (r: RustTypeWriter) {
        RustTypeWriter {  }
    }

    fn get_list_writer(&self) -> (r: RustTypeWriter) {
        RustTypeWriter {  }
    }

    fn get_map_writer(&self) -> (r: RustTypeWriter) {
        RustTypeWriter {  }
    }
}

/// Reference soundness: where the dictionary of the definitions holds a
/// type that refers to a name that no type of the dictionary has, the run
/// fails, and nothing is emitted.
pub proof fn lemma_missing_reference_stops_run(
    provider: RustProvider,
    definitions: Seq<DefinitionView>,
    i: int,
    k: int,
)
    requires
        type_dict_of(definitions, provider.pre_processor()) is Ok,
        0 <= i < type_dict_of(definitions, provider.pre_processor())->Ok_0.len(),
        0 <= k < type_dict_of(definitions, provider.pre_processor())->Ok_0[i].referenced_types().len(),
        !has_name(
            type_dict_of(definitions, provider.pre_processor())->Ok_0,
            type_dict_of(definitions, provider.pre_processor())->Ok_0[i].referenced_types()[k],
        ),
    ensures
        generated(provider, definitions) is Err,
{
    let types = type_dict_of(definitions, provider.pre_processor())->Ok_0;
    lemma_missing_reference_fails(types, provider.options()@, i, k);
}

/// The dictionary does not depend on the options.
proof fn lemma_same_dictionary(
    a: RustPreProcessor,
    b: RustPreProcessor,
    definitions: Seq<DefinitionView>,
    declared: Seq<Seq<char>>,
    payloads: Seq<Seq<char>>,
)
    ensures
        add_definitions(definitions, a, declared, payloads) == add_definitions(
            definitions,
            b,
            declared,
            payloads,
        ),
    decreases definitions.len(),
{
    if definitions.len() > 0 {
        lemma_same_dictionary(a, b, definitions.drop_last(), declared, payloads);
    }
}

/// What is emitted for types depends on the context alone.
proof fn lemma_same_types_emissions(
    a: RustProvider,
    b: RustProvider,
    types: Seq<TypeInfoView>,
    context: RustContextView,
)
    ensures
        types_emissions(a, types, context) == types_emissions(b, types, context),
    decreases types.len(),
{
    if types.len() > 0 {
        lemma_same_types_emissions(a, b, types.drop_last(), context);
        assert(type_text(a, types.last(), context) == type_text(b, types.last(), context));
    }
}

/// What is emitted for packages depends on the context alone.
proof fn lemma_same_packages_emissions(
    a: RustProvider,
    b: RustProvider,
    packages: Seq<Seq<char>>,
    context: RustContextView,
)
    ensures
        packages_emissions(a, packages, context) == packages_emissions(b, packages, context),
    decreases packages.len(),
{
    if packages.len() > 0 {
        lemma_same_packages_emissions(a, b, packages.drop_last(), context);
        let types = members(context.types, packages.last());
        lemma_same_types_emissions(a, b, types, context);
        assert(package_head(a, packages.last(), types, context) == package_head(
            b,
            packages.last(),
            types,
            context,
        ));
    }
}

/// What the Rust backend generates depends on its options by their view
/// alone.
pub proof fn lemma_generated_by_options(a: RustProvider, b: RustProvider, definitions: Seq<DefinitionView>)
    requires
        a.options()@ == b.options()@,
    ensures
        generated(a, definitions) == generated(b, definitions),
{
    let declared = crate::code_gen::utils::declared_names(definitions);
    let payloads = crate::code_gen::utils::declared_payloads(definitions);
    lemma_same_dictionary(a.pre_processor(), b.pre_processor(), definitions, declared, payloads);
    match type_dict_of(definitions, a.pre_processor()) {
        Ok(types) => {
            match a.pre_processor().context_of(types) {
                Ok(context) => {
                    lemma_same_packages_emissions(a, b, package_names(context.types), context);
                },
                Err(_) => {},
            }
        },
        Err(_) => {},
    }
}

} // verus!
