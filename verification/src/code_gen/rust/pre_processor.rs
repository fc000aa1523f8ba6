//! The pre-processing of the Rust backend.

use crate::code_gen::abi::type_dict::TypeDict;
use crate::code_gen::abi::type_info::TypeInfoView;
use crate::code_gen::abi::PreProcessor;
use crate::code_gen::error::{GenError, GenErrorView};
use crate::code_gen::rust::context::{rust_context_of, RustContext, RustContextView};
use crate::code_gen::rust::options::RustOptions;
use crate::definitions::{Definition, DefinitionView};
use vstd::prelude::*;

verus! {

/// Names the Rust package of each definition and makes the context of a
/// run.
pub struct RustPreProcessor {
    pub options: RustOptions,
}

impl PreProcessor<RustContext> for RustPreProcessor {
    open spec fn context_of(&self, types: Seq<TypeInfoView>) -> Result<RustContextView, GenErrorView> {
        rust_context_of(types, self.options@)
    }

    open spec fn package_name(&self, definition: DefinitionView) -> Result<Seq<char>, GenErrorView> {
        match definition.configs.rust_package {
            Some(package) => Ok(package),
            None => Err(GenErrorView::MissingPackage),
        }
    }

    /// Finds the cyclic reference groups of the dictionary and checks the
    /// payloads of its tagged unions.
    fn process(&self, types_dict: TypeDict) -> (r: Result<Box<RustContext>, GenError>) {
        match RustContext::new(types_dict, self.options.clone()) {
            Ok(context) => Ok(Box::new(context)),
            Err(e) => Err(e),
        }
    }

    fn get_package_name(&self, definition: &Definition) -> (r: Result<String, GenError>) {
        match &definition.configs.rust_package {
            Some(package) => Ok(package.clone()),
            _ => Err(GenError::MissingPackage),
        }
    }
}

} // verus!
