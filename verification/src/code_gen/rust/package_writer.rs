//! What the Rust backend writes for a package: its module file.

use crate::code_gen::abi::output::{Emission, EmissionView};
use crate::code_gen::abi::type_info::{TypeInfo, TypeInfoView};
use crate::code_gen::abi::{type_views, PackageWriter};
use crate::code_gen::error::{GenError, GenErrorView};
use crate::code_gen::rust::context::{RustContext, RustContextView};
use crate::code_gen::utils::snake_case;
use vstd::prelude::*;

verus! {

pub struct RustPackageWriter {}

/// The lines that bring the modules of the types into the module file of
/// their package: two for each type that has a file of its own.
pub open spec fn module_lines(package: Seq<char>, types: Seq<TypeInfoView>) -> Seq<char>
    decreases types.len(),
{
    if types.len() == 0 {
        Seq::empty()
    } else {
        let rest = module_lines(package, types.drop_last());
        let t = types.last();
        if t.is_object_enum_value() {
            rest
        } else {
            rest + "mod "@ + snake_case(t.name()) + ";\n"@ + "pub use crate::"@ + package + "::"@ + snake_case(
                t.name(),
            ) + "::*;\n"@
        }
    }
}

/// The module file of a package, made anew. Where each type has a file of
/// its own, it declares their modules; else it starts out empty, and the
/// types are added to it.
pub open spec fn rust_package_output(package: Seq<char>, types: Seq<TypeInfoView>, context: RustContextView) -> EmissionView {
    EmissionView {
        target: context.mod_file(package, false),
        text: if context.options.single_file {
            Seq::empty()
        } else {
            module_lines(package, types)
        },
    }
}

impl PackageWriter<RustContext> for RustPackageWriter {
    open spec fn package_output(&self, package: Seq<char>, types: Seq<TypeInfoView>, context: RustContextView) -> Result<
        EmissionView,
        GenErrorView,
    > {
        Ok(rust_package_output(package, types, context))
    }

    fn write_package(&self, package: &str, types: &Vec<&TypeInfo>, context: &RustContext) -> (r: Result<
        Emission,
        GenError,
    >) {
        let target = context.write_to_mod_file(package, false);
        let mut text = String::new();
        if !context.options().single_file {
            let ghost views = type_views(types@);
            let mut i: usize = 0;
            assert(views.take(0) =~= Seq::<TypeInfoView>::empty());
            while i < types.len()
                invariant
                    i <= types.len(),
                    views == type_views(types@),
                    text@ == module_lines(package@, views.take(i as int)),
                decreases types.len() - i,
            {
                let type_info = types[i];
                proof {
                    assert(views.take(i + 1).drop_last() =~= views.take(i as int));
                    assert(views.take(i + 1).last() == type_info@);
                }
                if !type_info.is_object_enum_value() {
                    let mod_name = context.options().type_to_file_name(type_info.name());
                    text.append("mod ");
                    text.append(mod_name.as_str());
                    text.append(";\n");
                    text.append("pub use crate::");
                    text.append(package);
                    text.append("::");
                    text.append(mod_name.as_str());
                    text.append("::*;\n");
                }
                i = i + 1;
            }
            assert(views.take(i as int) =~= views);
        }
        Ok(Emission { target, text })
    }
}

} // verus!
