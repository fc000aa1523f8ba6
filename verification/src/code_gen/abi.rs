//! What a backend and the driver agree on: the resolved type model, the
//! dictionary, where output goes, and one capability for each thing a
//! backend does.

pub mod output;
pub mod type_dict;
pub mod type_info;

use crate::code_gen::abi::output::{Emission, EmissionView, OutputTarget, OutputTargetView};
use crate::code_gen::abi::type_dict::TypeDict;
use crate::code_gen::abi::type_info::{
    EnumTypeInfo, EnumTypeInfoView, ListTypeInfo, ListTypeInfoView, MapTypeInfo, MapTypeInfoView,
    ObjectEnumTypeInfo, ObjectEnumTypeInfoView, ObjectTypeInfo, ObjectTypeInfoView, TypeInfo,
    TypeInfoView,
};
use crate::code_gen::error::{GenError, GenErrorView};
use crate::definitions::{Definition, DefinitionView};
use vstd::prelude::*;

verus! {

/// A result seen through the views of its two sides.
pub open spec fn result_view<T: View>(r: Result<T, GenError>) -> Result<T::V, GenErrorView> {
    match r {
        Ok(v) => Ok(v@),
        Err(e) => Err(e@),
    }
}

/// The views of the types of a list, in order.
pub open spec fn type_views(types: Seq<&TypeInfo>) -> Seq<TypeInfoView> {
    types.map_values(|t: &TypeInfo| t@)
}

/// The state that every writer of a backend reads: the dictionary and the
/// backend's own configuration. A context is never changed once made, and
/// what a writer gives depends on the view of the context alone.
pub trait CodeGenContext: View {
    /// The types of the dictionary that the context holds.
    spec fn types(context: Self::V) -> Seq<TypeInfoView>;

    /// Where the text of a type goes.
    spec fn target(context: Self::V, type_info: TypeInfoView) -> Result<
        OutputTargetView,
        GenErrorView,
    >;

    fn type_dict(&self) -> (r: &TypeDict)
        ensures
            r@ == Self::types(self@),
    ;

    /// Where the text of a type goes. The driver asks once for each type
    /// that it emits.
    fn get_writer_for_type(&self, type_info: &TypeInfo) -> (r: Result<OutputTarget, GenError>)
        ensures
            result_view(r) == Self::target(self@, type_info@),
    ;
}

/// Names the package of each definition and turns the dictionary into the
/// context of a run.
pub trait PreProcessor<C: CodeGenContext> {
    /// The context made of a dictionary, or why there is none.
    spec fn context_of(&self, types: Seq<TypeInfoView>) -> Result<C::V, GenErrorView>;

    /// The package of a definition, or why it has none.
    spec fn package_name(&self, definition: DefinitionView) -> Result<Seq<char>, GenErrorView>;

    fn process(&self, types_dict: TypeDict) -> (r: Result<Box<C>, GenError>)
        ensures
            result_view(r) == self.context_of(types_dict@),
    ;

    fn get_package_name(&self, definition: &Definition) -> (r: Result<String, GenError>)
        ensures
            result_view(r) == self.package_name(definition@),
    ;
}

/// Writes what a package needs beside its types.
pub trait PackageWriter<C: CodeGenContext> {
    /// What is written for a package with these member types.
    spec fn package_output(&self, package: Seq<char>, types: Seq<TypeInfoView>, context: C::V) -> Result<
        EmissionView,
        GenErrorView,
    >;

    fn write_package(&self, package: &str, types: &Vec<&TypeInfo>, context: &C) -> (r: Result<
        Emission,
        GenError,
    >)
        ensures
            result_view(r) == self.package_output(package@, type_views(types@), context@),
    ;
}

/// Writes a named alias for a mapping.
pub trait MapWriter<C: CodeGenContext> {
    spec fn map_text(&self, type_info: MapTypeInfoView, context: C::V) -> Result<
        Seq<char>,
        GenErrorView,
    >;

    fn write_map(&self, type_info: &MapTypeInfo, context: &C) -> (r: Result<String, GenError>)
        ensures
            result_view(r) == self.map_text(type_info@, context@),
    ;
}

/// Writes a named alias for a sequence.
pub trait ListWriter<C: CodeGenContext> {
    spec fn list_text(&self, type_info: ListTypeInfoView, context: C::V) -> Result<
        Seq<char>,
        GenErrorView,
    >;

    fn write_list(&self, type_info: &ListTypeInfo, context: &C) -> (r: Result<String, GenError>)
        ensures
            result_view(r) == self.list_text(type_info@, context@),
    ;
}

/// Writes a tagged union.
pub trait ObjectEnumWriter<C: CodeGenContext> {
    spec fn object_enum_text(&self, type_info: ObjectEnumTypeInfoView, context: C::V) -> Result<
        Seq<char>,
        GenErrorView,
    >;

    fn write_object_enum(&self, type_info: &ObjectEnumTypeInfo, context: &C) -> (r: Result<
        String,
        GenError,
    >)
        ensures
            result_view(r) == self.object_enum_text(type_info@, context@),
    ;
}

/// Writes an enumeration of literal tags.
pub trait EnumWriter<C: CodeGenContext> {
    spec fn enum_text(&self, type_info: EnumTypeInfoView, context: C::V) -> Result<
        Seq<char>,
        GenErrorView,
    >;

    fn write_enum(&self, type_info: &EnumTypeInfo, context: &C) -> (r: Result<String, GenError>)
        ensures
            result_view(r) == self.enum_text(type_info@, context@),
    ;
}

/// Writes an object: a product type with one member for each field.
pub trait ObjectWriter<C: CodeGenContext> {
    spec fn object_text(&self, type_info: ObjectTypeInfoView, context: C::V) -> Result<
        Seq<char>,
        GenErrorView,
    >;

    fn write_object(&self, type_info: &ObjectTypeInfo, context: &C) -> (r: Result<String, GenError>)
        ensures
            result_view(r) == self.object_text(type_info@, context@),
    ;
}

/// A backend: the bundle of capabilities that the driver runs.
pub trait CodeGenProvider<C: CodeGenContext> {
    type Pre: PreProcessor<C>;

    type Package: PackageWriter<C>;

    type Object: ObjectWriter<C>;

    type Enum: EnumWriter<C>;

    type ObjectEnum: ObjectEnumWriter<C>;

    type List: ListWriter<C>;

    type Mapping: MapWriter<C>;

    spec fn pre_processor(&self) -> Self::Pre;

    spec fn package_writer(&self) -> Option<Self::Package>;

    spec fn object_writer(&self) -> Self::Object;

    spec fn enum_writer(&self) -> Self::Enum;

    spec fn object_enum_writer(&self) -> Self::ObjectEnum;

    spec fn list_writer(&self) -> Self::List;

    spec fn map_writer(&self) -> Self::Mapping;

    fn get_pre_processor(&self) -> (r: Self::Pre)
        ensures
            r == self.pre_processor(),
    ;

    fn get_package_writer(&self) -> (r: Option<Self::Package>)
        ensures
            r == self.package_writer(),
    ;

    fn get_object_writer(&self) -> (r: Self::Object)
        ensures
            r == self.object_writer(),
    ;

    fn get_enum_writer(&self) -> (r: Self::Enum)
        ensures
            r == self.enum_writer(),
    ;

    fn get_object_enum_writer(&self) -> (r: Self::ObjectEnum)
        ensures
            r == self.object_enum_writer(),
    ;

    fn get_list_writer(&self) -> (r: Self::List)
        ensures
            r == self.list_writer(),
    ;

    fn get_map_writer(&self) -> (r: Self::Mapping)
        ensures
            r == self.map_writer(),
    ;
}

} // verus!
