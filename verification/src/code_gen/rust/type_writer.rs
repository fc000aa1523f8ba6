//! What the Rust backend writes for each kind of type.

use crate::code_gen::abi::type_dict::entry_named;
use crate::code_gen::abi::type_info::{
    EnumTypeInfo, EnumTypeInfoView, ListTypeInfo, ListTypeInfoView, MapTypeInfo, MapTypeInfoView,
    ObjectEnumTypeInfo, ObjectEnumTypeInfoView, ObjectEnumValue, ObjectEnumValueView, ObjectField,
    ObjectFieldView, ObjectTypeInfo, ObjectTypeInfoView, TypeInfo, TypeInfoView, TypeName,
    TypeNameView,
};
use crate::code_gen::abi::{
    result_view, CodeGenContext, EnumWriter, ListWriter, MapWriter, ObjectEnumWriter, ObjectWriter,
};
use crate::code_gen::error::{GenError, GenErrorView};
use crate::code_gen::rust::context::{type_path, RustContext, RustContextView};
use crate::definitions::{texts, ObjectEnumStyle};
use vstd::prelude::*;

verus! {

pub struct RustTypeWriter {}

/// The attributes above every type.
pub open spec fn type_descriptions() -> Seq<char> {
    "#[derive(Debug, Clone, Serialize, Deserialize)]"@
}

/// Whether a field is stored behind an indirection: where it asks for a
/// wrapper itself, and where its type lies on a cycle of references with
/// the type that the field belongs to.
pub open spec fn needs_indirection(field: ObjectFieldView, owner: Seq<char>, context: RustContextView) -> bool {
    ||| (field.config matches Some(c) && c.rust_type_wrapper is Some)
    ||| (field.field_type matches TypeNameView::CustomType(b) && context.is_cyclic_ref(owner, b))
}

/// The name under which a field is written, where it is renamed.
pub open spec fn renamed(field: ObjectFieldView) -> Option<Seq<char>> {
    match field.config {
        Some(c) => c.rename,
        None => None,
    }
}

/// The type of a field as it is written: the qualified name of its type,
/// in `Option<..>` where the field is optional, and all of that in
/// `Box<..>` where the field needs an indirection.
pub open spec fn field_type_text(field: ObjectFieldView, owner: ObjectTypeInfoView, context: RustContextView) -> Result<
    Seq<char>,
    GenErrorView,
> {
    match context.qualified_name(field.field_type) {
        Err(e) => Err(e),
        Ok(name) => {
            let optional = if field.is_optional() {
                "Option<"@ + name + ">"@
            } else {
                name
            };
            Ok(
                if needs_indirection(field, owner.name, context) {
                    "Box<"@ + optional + ">"@
                } else {
                    optional
                },
            )
        },
    }
}

/// A field as it is written: as a public member of a struct, or, where its
/// object is the payload of a tagged union, as a member of a variant. A
/// renamed field is written under its new name, with an attribute that
/// keeps the old one for serialisation.
pub open spec fn field_text(field: ObjectFieldView, owner: ObjectTypeInfoView, context: RustContextView) -> Result<
    Seq<char>,
    GenErrorView,
> {
    match field_type_text(field, owner, context) {
        Err(e) => Err(e),
        Ok(ty) => Ok(
            match renamed(field) {
                Some(rename) => if owner.is_object_enum_value {
                    "    #[serde(rename = \""@ + field.name + "\")]\n"@ + "    "@ + rename + ": "@ + ty + ",\n"@
                } else {
                    "  #[serde(rename = \""@ + field.name + "\")]\n"@ + "  pub "@ + rename + ": "@ + ty + ",\n"@
                },
                None => if owner.is_object_enum_value {
                    "    "@ + field.name + ": "@ + ty + ",\n"@
                } else {
                    "  pub "@ + field.name + ": "@ + ty + ",\n"@
                },
            },
        ),
    }
}

/// The fields of an object as they are written, one after the other.
pub open spec fn fields_text(fields: Seq<ObjectFieldView>, owner: ObjectTypeInfoView, context: RustContextView) -> Result<
    Seq<char>,
    GenErrorView,
>
    decreases fields.len(),
{
    if fields.len() == 0 {
        Ok(Seq::empty())
    } else {
        match fields_text(fields.drop_last(), owner, context) {
            Err(e) => Err(e),
            Ok(rest) => match field_text(fields.last(), owner, context) {
                Err(e) => Err(e),
                Ok(f) => Ok(rest + f),
            },
        }
    }
}

/// An object as it is written: a struct with one member for each field.
pub open spec fn rust_object_text(o: ObjectTypeInfoView, context: RustContextView) -> Result<
    Seq<char>,
    GenErrorView,
> {
    match fields_text(o.fields, o, context) {
        Err(e) => Err(e),
        Ok(fields) => Ok(
            type_descriptions() + "\n"@ + "pub struct "@ + o.name + " {\n"@ + fields + "}\n"@ + "\n"@,
        ),
    }
}

/// The tags of an enum as they are written, in their order.
pub open spec fn tags_text(values: Seq<Seq<char>>) -> Seq<char>
    decreases values.len(),
{
    if values.len() == 0 {
        Seq::empty()
    } else {
        tags_text(values.drop_last()) + "  "@ + values.last() + ",\n"@
    }
}

/// An enum as it is written.
pub open spec fn rust_enum_text(e: EnumTypeInfoView) -> Seq<char> {
    type_descriptions() + "\n"@ + "pub enum "@ + e.name + " {\n"@ + tags_text(e.values) + "}\n"@ + "\n"@
}

/// The layout of the object-backed variants of a tagged union: inline
/// unless it asks for another.
pub open spec fn style_of(e: ObjectEnumTypeInfoView) -> ObjectEnumStyle {
    match e.configs {
        Some(c) => match c.object_enum_style {
            Some(s) => s,
            None => ObjectEnumStyle::Inline,
        },
        None => ObjectEnumStyle::Inline,
    }
}

/// A variant of a tagged union as it is written. A literal is a variant
/// without payload. A payload is a variant that holds the fields of its
/// object inline, or that wraps the object. A payload that names no object
/// of the dictionary is an error.
pub open spec fn variant_text(value: ObjectEnumValueView, style: ObjectEnumStyle, context: RustContextView) -> Result<
    Seq<char>,
    GenErrorView,
> {
    match value {
        ObjectEnumValueView::Simple(simple) => Ok("  "@ + simple + ",\n"@),
        ObjectEnumValueView::CustomType(name) => match entry_named(context.types, name) {
            Some(TypeInfoView::Object(o)) => match style {
                ObjectEnumStyle::Extern => Ok(
                    "  "@ + o.name + "("@ + type_path(TypeInfoView::Object(o)) + "),\n"@,
                ),
                ObjectEnumStyle::Inline => match fields_text(o.fields, o, context) {
                    Err(e) => Err(e),
                    Ok(fields) => Ok("  "@ + o.name + " {\n"@ + fields + "  },\n"@),
                },
            },
            _ => Err(GenErrorView::NotAnObject(name)),
        },
    }
}

/// The variants of a tagged union as they are written, in their order.
pub open spec fn variants_text(values: Seq<ObjectEnumValueView>, style: ObjectEnumStyle, context: RustContextView) -> Result<
    Seq<char>,
    GenErrorView,
>
    decreases values.len(),
{
    if values.len() == 0 {
        Ok(Seq::empty())
    } else {
        match variants_text(values.drop_last(), style, context) {
            Err(e) => Err(e),
            Ok(rest) => match variant_text(values.last(), style, context) {
                Err(e) => Err(e),
                Ok(v) => Ok(rest + v),
            },
        }
    }
}

/// A tagged union as it is written: an enum keyed by its discriminant.
pub open spec fn rust_object_enum_text(e: ObjectEnumTypeInfoView, context: RustContextView) -> Result<
    Seq<char>,
    GenErrorView,
> {
    match variants_text(e.values, style_of(e), context) {
        Err(err) => Err(err),
        Ok(variants) => Ok(
            type_descriptions() + "\n"@ + "#[serde(tag = \""@ + e.type_tag + "\")]\n"@ + "pub enum "@ + e.name
                + " {\n"@ + variants + "}"@ + "\n"@,
        ),
    }
}

/// A map alias as it is written.
pub open spec fn rust_map_text(m: MapTypeInfoView, context: RustContextView) -> Result<Seq<char>, GenErrorView> {
    match context.qualified_name(m.value_type) {
        Err(e) => Err(e),
        Ok(value) => match context.qualified_name(m.key_type) {
            Err(e) => Err(e),
            Ok(key) => Ok(
                "use std::collections::HashMap;\n\n"@ + "pub type "@ + m.name + " = HashMap<"@ + key + ", "@ + value
                    + ">;\n"@ + "\n"@,
            ),
        },
    }
}

/// A list alias as it is written.
pub open spec fn rust_list_text(l: ListTypeInfoView, context: RustContextView) -> Result<
    Seq<char>,
    GenErrorView,
> {
    match context.qualified_name(l.item_type) {
        Err(e) => Err(e),
        Ok(item) => Ok("pub type "@ + l.name + " = Vec<"@ + item + ">;\n"@ + "\n"@),
    }
}

/// Once a field has failed, the fields fail with it.
proof fn lemma_fields_failed(
    fields: Seq<ObjectFieldView>,
    owner: ObjectTypeInfoView,
    context: RustContextView,
    j: int,
    m: int,
)
    requires
        0 <= j <= m <= fields.len(),
        fields_text(fields.take(j), owner, context) is Err,
    ensures
        fields_text(fields.take(m), owner, context) == fields_text(fields.take(j), owner, context),
    decreases m - j,
{
    if j < m {
        lemma_fields_failed(fields, owner, context, j, m - 1);
        assert(fields.take(m).drop_last() =~= fields.take(m - 1));
    }
}

/// Once a variant has failed, the variants fail with it.
proof fn lemma_variants_failed(
    values: Seq<ObjectEnumValueView>,
    style: ObjectEnumStyle,
    context: RustContextView,
    j: int,
    m: int,
)
    requires
        0 <= j <= m <= values.len(),
        variants_text(values.take(j), style, context) is Err,
    ensures
        variants_text(values.take(m), style, context) == variants_text(values.take(j), style, context),
    decreases m - j,
{
    if j < m {
        lemma_variants_failed(values, style, context, j, m - 1);
        assert(values.take(m).drop_last() =~= values.take(m - 1));
    }
}

impl RustTypeWriter {
    /// Whether a field is written with an indirection: where it asks for a
    /// wrapper itself, and where its type lies on a cycle of references
    /// with the type that the field belongs to.
    pub fn needs_indirection(&self, field: &ObjectField, type_info: &ObjectTypeInfo, context: &RustContext) -> (r:
        bool)
        ensures
            r == needs_indirection(field@, type_info@.name, context@),
    {
        let asked = match &field.config {
            Some(c) => c.rust_type_wrapper.is_some(),
            None => false,
        };
        if asked {
            return true;
        }
        match &field.field_type {
            TypeName::CustomType(b) => context.is_cyclic_ref(type_info.name.as_str(), b.as_str()),
            TypeName::Simple(_) => false,
        }
    }

    /// Writes the fields of an object.
    fn write_fields(&self, type_info: &ObjectTypeInfo, context: &RustContext) -> (r: Result<String, GenError>)
        ensures
            result_view(r) == fields_text(type_info@.fields, type_info@, context@),
    {
        let ghost fields = type_info@.fields;
        let mut text = String::new();
        let mut i: usize = 0;
        assert(fields.take(0) =~= Seq::<ObjectFieldView>::empty());
        while i < type_info.fields.len()
            invariant
                i <= type_info.fields.len(),
                fields == type_info@.fields,
                fields.len() == type_info.fields.len(),
                fields_text(fields.take(i as int), type_info@, context@) == Ok::<Seq<char>, GenErrorView>(
                    text@,
                ),
            decreases type_info.fields.len() - i,
        {
            proof {
                assert(fields.take(i + 1).drop_last() =~= fields.take(i as int));
                assert(fields.take(i + 1).last() == type_info.fields[i as int]@);
                assert(fields.take(fields.len() as int) =~= fields);
            }
            match self.write_object_field(&type_info.fields[i], type_info, context) {
                Ok(f) => {
                    text.append(f.as_str());
                },
                Err(e) => {
                    proof {
                        lemma_fields_failed(fields, type_info@, context@, i + 1, fields.len() as int);
                    }
                    return Err(e);
                },
            }
            i = i + 1;
        }
        assert(fields.take(i as int) =~= fields);
        Ok(text)
    }

    /// Writes one field.
    pub fn write_object_field(&self, field: &ObjectField, type_info: &ObjectTypeInfo, context: &RustContext) -> (r:
        Result<String, GenError>)
        ensures
            result_view(r) == field_text(field@, type_info@, context@),
    {
        let name = match context.get_fully_qualified_type_name(&field.field_type) {
            Ok(name) => name,
            Err(e) => {
                return Err(e);
            },
        };
        let type_to_write = match field.is_optional() {
            true => {
                let mut s = String::from_str("Option<");
                s.append(name.as_str());
                s.append(">");
                s
            },
            _ => name,
        };
        let type_to_write = match self.needs_indirection(field, type_info, context) {
            true => {
                let mut s = String::from_str("Box<");
                s.append(type_to_write.as_str());
                s.append(">");
                s
            },
            _ => type_to_write,
        };
        let rename: Option<&String> = match &field.config {
            Some(c) => match &c.rename {
                Some(r) => Some(r),
                None => None,
            },
            None => None,
        };
        let text = match rename {
            Some(rename) => {
                if type_info.is_object_enum_value {
                    let mut s = String::from_str("    #[serde(rename = \"");
                    s.append(field.name.as_str());
                    s.append("\")]\n");
                    s.append("    ");
                    s.append(rename.as_str());
                    s.append(": ");
                    s.append(type_to_write.as_str());
                    s.append(",\n");
                    s
                } else {
                    let mut s = String::from_str("  #[serde(rename = \"");
                    s.append(field.name.as_str());
                    s.append("\")]\n");
                    s.append("  pub ");
                    s.append(rename.as_str());
                    s.append(": ");
                    s.append(type_to_write.as_str());
                    s.append(",\n");
                    s
                }
            },
            None => {
                if type_info.is_object_enum_value {
                    let mut s = String::from_str("    ");
                    s.append(field.name.as_str());
                    s.append(": ");
                    s.append(type_to_write.as_str());
                    s.append(",\n");
                    s
                } else {
                    let mut s = String::from_str("  pub ");
                    s.append(field.name.as_str());
                    s.append(": ");
                    s.append(type_to_write.as_str());
                    s.append(",\n");
                    s
                }
            },
        };
        Ok(text)
    }

    /// Writes one variant of a tagged union.
    fn write_variant(&self, value: &ObjectEnumValue, enum_style: ObjectEnumStyle, context: &RustContext) -> (r:
        Result<String, GenError>)
        ensures
            result_view(r) == variant_text(value@, enum_style, context@),
    {
        match value {
            ObjectEnumValue::Simple(simple) => {
                let mut s = String::from_str("  ");
                s.append(simple.as_str());
                s.append(",\n");
                Ok(s)
            },
            ObjectEnumValue::CustomType(name) => {
                let found = match context.type_dict().get(name.as_str()) {
                    Some(found) => found,
                    None => {
                        return Err(GenError::NotAnObject(name.clone()));
                    },
                };
                let type_info = match found {
                    TypeInfo::Object(type_info) => type_info,
                    _ => {
                        return Err(GenError::NotAnObject(name.clone()));
                    },
                };
                match enum_style {
                    ObjectEnumStyle::Extern => {
                        let path = context.get_fqn_for_type(found);
                        let mut s = String::from_str("  ");
                        s.append(type_info.name.as_str());
                        s.append("(");
                        s.append(path.as_str());
                        s.append("),\n");
                        Ok(s)
                    },
                    ObjectEnumStyle::Inline => {
                        let fields = match self.write_fields(type_info, context) {
                            Ok(fields) => fields,
                            Err(e) => {
                                return Err(e);
                            },
                        };
                        let mut s = String::from_str("  ");
                        s.append(type_info.name.as_str());
                        s.append(" {\n");
                        s.append(fields.as_str());
                        s.append("  },\n");
                        Ok(s)
                    },
                }
            },
        }
    }
}

impl ObjectWriter<RustContext> for RustTypeWriter {
    open spec fn object_text(&self, type_info: ObjectTypeInfoView, context: RustContextView) -> Result<
        Seq<char>,
        GenErrorView,
    > {
        rust_object_text(type_info, context)
    }

    fn write_object(&self, type_info: &ObjectTypeInfo, context: &RustContext) -> (r: Result<String, GenError>) {
        let fields = match self.write_fields(type_info, context) {
            Ok(fields) => fields,
            Err(e) => {
                return Err(e);
            },
        };
        let mut s = context.type_descriptions();
        s.append("\n");
        s.append("pub struct ");
        s.append(type_info.name.as_str());
        s.append(" {\n");
        s.append(fields.as_str());
        s.append("}\n");
        s.append("\n");
        Ok(s)
    }
}

impl EnumWriter<RustContext> for RustTypeWriter {
    open spec fn enum_text(&self, type_info: EnumTypeInfoView, context: RustContextView) -> Result<
        Seq<char>,
        GenErrorView,
    > {
        Ok(rust_enum_text(type_info))
    }

    fn write_enum(&self, type_info: &EnumTypeInfo, context: &RustContext) -> (r: Result<String, GenError>) {
        let ghost values = type_info@.values;
        let mut s = context.type_descriptions();
        s.append("\n");
        s.append("pub enum ");
        s.append(type_info.name.as_str());
        s.append(" {\n");
        let ghost head = s@;
        let mut i: usize = 0;
        assert(values.take(0) =~= Seq::<Seq<char>>::empty());
        assert(head + Seq::<char>::empty() =~= head);
        while i < type_info.values.len()
            invariant
                i <= type_info.values.len(),
                values == texts(type_info.values@),
                s@ == head + tags_text(values.take(i as int)),
            decreases type_info.values.len() - i,
        {
            proof {
                assert(values.take(i + 1).drop_last() =~= values.take(i as int));
                assert(values.take(i + 1).last() == type_info.values[i as int]@);
            }
            let ghost before = tags_text(values.take(i as int));
            s.append("  ");
            s.append(type_info.values[i].as_str());
            s.append(",\n");
            assert(s@ =~= head + (before + "  "@ + type_info.values[i as int]@ + ",\n"@));
            i = i + 1;
        }
        assert(values.take(i as int) =~= values);
        s.append("}\n");
        s.append("\n");
        Ok(s)
    }
}

impl ObjectEnumWriter<RustContext> for RustTypeWriter {
    open spec fn object_enum_text(&self, type_info: ObjectEnumTypeInfoView, context: RustContextView) -> Result<
        Seq<char>,
        GenErrorView,
    > {
        rust_object_enum_text(type_info, context)
    }

    fn write_object_enum(&self, type_info: &ObjectEnumTypeInfo, context: &RustContext) -> (r: Result<
        String,
        GenError,
    >) {
        let enum_style = match type_info.configs {
            Some(c) => match c.object_enum_style {
                Some(s) => s,
                None => ObjectEnumStyle::Inline,
            },
            None => ObjectEnumStyle::Inline,
        };
        let ghost values = type_info@.values;
        let mut variants = String::new();
        let mut i: usize = 0;
        assert(values.take(0) =~= Seq::<ObjectEnumValueView>::empty());
        while i < type_info.values.len()
            invariant
                i <= type_info.values.len(),
                values == type_info@.values,
                values.len() == type_info.values.len(),
                enum_style == style_of(type_info@),
                variants_text(values.take(i as int), enum_style, context@) == Ok::<Seq<char>, GenErrorView>(
                    variants@,
                ),
            decreases type_info.values.len() - i,
        {
            proof {
                assert(values.take(i + 1).drop_last() =~= values.take(i as int));
                assert(values.take(i + 1).last() == type_info.values[i as int]@);
                assert(values.take(values.len() as int) =~= values);
            }
            match self.write_variant(&type_info.values[i], enum_style, context) {
                Ok(v) => {
                    variants.append(v.as_str());
                },
                Err(e) => {
                    proof {
                        lemma_variants_failed(values, enum_style, context@, i + 1, values.len() as int);
                    }
                    return Err(e);
                },
            }
            i = i + 1;
        }
        assert(values.take(i as int) =~= values);
        let mut s = context.type_descriptions();
        s.append("\n");
        s.append("#[serde(tag = \"");
        s.append(type_info.type_tag.as_str());
        s.append("\")]\n");
        s.append("pub enum ");
        s.append(type_info.name.as_str());
        s.append(" {\n");
        s.append(variants.as_str());
        s.append("}");
        s.append("\n");
        Ok(s)
    }
}

impl MapWriter<RustContext> for RustTypeWriter {
    open spec fn map_text(&self, type_info: MapTypeInfoView, context: RustContextView) -> Result<
        Seq<char>,
        GenErrorView,
    > {
        rust_map_text(type_info, context)
    }

    fn write_map(&self, type_info: &MapTypeInfo, context: &RustContext) -> (r: Result<String, GenError>) {
        let value_type = match context.get_fully_qualified_type_name(&type_info.value_type) {
            Ok(name) => name,
            Err(e) => {
                return Err(e);
            },
        };
        let key_type = match context.get_fully_qualified_type_name(&type_info.key_type) {
            Ok(name) => name,
            Err(e) => {
                return Err(e);
            },
        };
        let mut s = String::from_str("use std::collections::HashMap;\n\n");
        s.append("pub type ");
        s.append(type_info.name.as_str());
        s.append(" = HashMap<");
        s.append(key_type.as_str());
        s.append(", ");
        s.append(value_type.as_str());
        s.append(">;\n");
        s.append("\n");
        Ok(s)
    }
}

impl ListWriter<RustContext> for RustTypeWriter {
    open spec fn list_text(&self, type_info: ListTypeInfoView, context: RustContextView) -> Result<
        Seq<char>,
        GenErrorView,
    > {
        rust_list_text(type_info, context)
    }

    fn write_list(&self, type_info: &ListTypeInfo, context: &RustContext) -> (r: Result<String, GenError>) {
        let item_type = match context.get_fully_qualified_type_name(&type_info.item_type) {
            Ok(name) => name,
            Err(e) => {
                return Err(e);
            },
        };
        let mut s = String::from_str("pub type ");
        s.append(type_info.name.as_str());
        s.append(" = Vec<");
        s.append(item_type.as_str());
        s.append(">;\n");
        s.append("\n");
        Ok(s)
    }
}

/// No qualified name starts with an uppercase B.
proof fn lemma_qualified_name_start(context: RustContextView, name: TypeNameView)
    requires
        context.qualified_name(name) is Ok,
    ensures
        context.qualified_name(name)->Ok_0.len() > 0,
        context.qualified_name(name)->Ok_0[0] != 'B',
{
    reveal_strlit("String");
    reveal_strlit("bool");
    reveal_strlit("DateTime");
    reveal_strlit("u32");
    reveal_strlit("u64");
    reveal_strlit("i32");
    reveal_strlit("i64");
    reveal_strlit("f32");
    reveal_strlit("f64");
    reveal_strlit("crate::");
    match name {
        TypeNameView::Simple(t) => {},
        TypeNameView::CustomType(n) => {
            let t = entry_named(context.types, n)->0;
            let path = type_path(t);
            assert(path[0] == "crate::"@[0]);
        },
    }
}

/// The indirection policy: the type of a field is written in `Box<..>`
/// where the field needs an indirection, and only there.
pub proof fn lemma_indirection_policy(field: ObjectFieldView, owner: ObjectTypeInfoView, context: RustContextView)
    requires
        field_type_text(field, owner, context) is Ok,
    ensures
        ({
            let text = field_type_text(field, owner, context)->Ok_0;
            (text.len() >= 4 && text.subrange(0, 4) == "Box<"@) <==> needs_indirection(
                field,
                owner.name,
                context,
            )
        }),
{
    reveal_strlit("Box<");
    reveal_strlit("Option<");
    let text = field_type_text(field, owner, context)->Ok_0;
    let name = context.qualified_name(field.field_type)->Ok_0;
    lemma_qualified_name_start(context, field.field_type);
    let optional = if field.is_optional() {
        "Option<"@ + name + ">"@
    } else {
        name
    };
    assert(optional.len() > 0 && optional[0] != 'B');
    if needs_indirection(field, owner.name, context) {
        assert(text == "Box<"@ + optional + ">"@);
        assert(text.subrange(0, 4) =~= "Box<"@);
    } else {
        assert(text == optional);
        if text.len() >= 4 {
            assert(text.subrange(0, 4)[0] == text[0]);
            assert("Box<"@[0] == 'B');
        }
    }
}

} // verus!
