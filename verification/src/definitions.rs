//! The schema vocabulary: what a definition file declares, before any name
//! in it has been resolved.

use vstd::prelude::*;

verus! {

/// The primitive types a field, item, key or value may have.
#[derive(Debug, Clone, Copy, PartialEq, Eq, Structural)]
pub enum SimpleType {
    String,
    Bool,
    DateTime,
    UInt32,
    UInt64,
    Int32,
    Int64,
    Float32,
    Float64,
}

/// How the object-backed variants of a tagged union are laid out.
#[derive(Debug, Clone, Copy, PartialEq, Eq, Structural)]
pub enum ObjectEnumStyle {
    Inline,
    Extern,
}

/// A wrapper that a field may ask for around its type.
#[derive(Debug, Clone, Copy, PartialEq, Eq, Structural)]
pub enum RustTypeWrapper {
    Box,
}

/// Per-type configuration.
#[derive(Debug, Clone, Copy, PartialEq, Eq, Structural)]
pub struct TypeConfig {
    pub object_enum_style: Option<ObjectEnumStyle>,
}

/// Per-field configuration: a rename and an explicit wrapper.
#[derive(Debug, PartialEq)]
pub struct FieldConfig {
    pub rename: Option<String>,
    pub rust_type_wrapper: Option<RustTypeWrapper>,
}

pub struct FieldConfigView {
    pub rename: Option<Seq<char>>,
    pub rust_type_wrapper: Option<RustTypeWrapper>,
}

/// A field of an object, its type still a token.
#[derive(Debug, PartialEq)]
pub struct Field {
    pub name: String,
    pub field_type: String,
    pub optional: Option<bool>,
    pub configs: Option<FieldConfig>,
}

pub struct FieldView {
    pub name: Seq<char>,
    pub field_type: Seq<char>,
    pub optional: Option<bool>,
    pub configs: Option<FieldConfigView>,
}

/// A type that a definition declares.
#[derive(Debug, PartialEq)]
pub enum CustomType {
    Object { name: String, fields: Vec<Field> },
    Enum { name: String, values: Vec<String> },
    ObjectEnum { name: String, type_tag: String, values: Vec<String>, configs: Option<TypeConfig> },
    List { name: String, item_type: String },
    Mapping { name: String, key_type: String, value_type: String },
}

pub enum CustomTypeView {
    Object { name: Seq<char>, fields: Seq<FieldView> },
    Enum { name: Seq<char>, values: Seq<Seq<char>> },
    ObjectEnum {
        name: Seq<char>,
        type_tag: Seq<char>,
        values: Seq<Seq<char>>,
        configs: Option<TypeConfig>,
    },
    List { name: Seq<char>, item_type: Seq<char> },
    Mapping { name: Seq<char>, key_type: Seq<char>, value_type: Seq<char> },
}

/// The configuration scope of one definition.
#[derive(Debug, PartialEq)]
pub struct DefinitionConfig {
    pub rust_package: Option<String>,
}

pub struct DefinitionConfigView {
    pub rust_package: Option<Seq<char>>,
}

/// A bundle of custom types that share one configuration.
#[derive(Debug, PartialEq)]
pub struct Definition {
    pub types: Vec<CustomType>,
    pub configs: DefinitionConfig,
}

pub struct DefinitionView {
    pub types: Seq<CustomTypeView>,
    pub configs: DefinitionConfigView,
}

/// The characters of an optional string.
pub open spec fn option_text(o: Option<String>) -> Option<Seq<char>> {
    match o {
        Some(s) => Some(s@),
        None => None,
    }
}

/// The characters of each string of a sequence.
pub open spec fn texts(v: Seq<String>) -> Seq<Seq<char>> {
    v.map_values(|s: String| s@)
}

impl View for FieldConfig {
    type V = FieldConfigView;

    open spec fn view(&self) -> FieldConfigView {
        FieldConfigView {
            rename: option_text(self.rename),
            rust_type_wrapper: self.rust_type_wrapper,
        }
    }
}

impl View for Field {
    type V = FieldView;

    open spec fn view(&self) -> FieldView {
        FieldView {
            name: self.name@,
            field_type: self.field_type@,
            optional: self.optional,
            configs: match self.configs {
                Some(c) => Some(c@),
                None => None,
            },
        }
    }
}

impl View for CustomType {
    type V = CustomTypeView;

    open spec fn view(&self) -> CustomTypeView {
        match *self {
            CustomType::Object { name, fields } => CustomTypeView::Object {
                name: name@,
                fields: fields@.map_values(|f: Field| f@),
            },
            CustomType::Enum { name, values } => CustomTypeView::Enum {
                name: name@,
                values: texts(values@),
            },
            CustomType::ObjectEnum { name, type_tag, values, configs } => CustomTypeView::ObjectEnum {
                name: name@,
                type_tag: type_tag@,
                values: texts(values@),
                configs,
            },
            CustomType::List { name, item_type } => CustomTypeView::List {
                name: name@,
                item_type: item_type@,
            },
            CustomType::Mapping { name, key_type, value_type } => CustomTypeView::Mapping {
                name: name@,
                key_type: key_type@,
                value_type: value_type@,
            },
        }
    }
}

impl View for DefinitionConfig {
    type V = DefinitionConfigView;

    open spec fn view(&self) -> DefinitionConfigView {
        DefinitionConfigView { rust_package: option_text(self.rust_package) }
    }
}

impl View for Definition {
    type V = DefinitionView;

    open spec fn view(&self) -> DefinitionView {
        DefinitionView { types: self.types@.map_values(|t: CustomType| t@), configs: self.configs@ }
    }
}

impl CustomTypeView {
    /// The name under which the type is declared.
    pub open spec fn declared_name(self) -> Seq<char> {
        match self {
            CustomTypeView::Object { name, .. } => name,
            CustomTypeView::Enum { name, .. } => name,
            CustomTypeView::ObjectEnum { name, .. } => name,
            CustomTypeView::List { name, .. } => name,
            CustomTypeView::Mapping { name, .. } => name,
        }
    }
}

/// A copy of an optional string.
pub fn clone_option_string(o: &Option<String>) -> (r: Option<String>)
    ensures
        option_text(r) == option_text(*o),
{
    match o {
        Some(s) => Some(s.clone()),
        None => None,
    }
}

/// A copy of a list of strings.
pub fn clone_strings(v: &Vec<String>) -> (r: Vec<String>)
    ensures
        texts(r@) == texts(v@),
{
    let mut out: Vec<String> = Vec::new();
    let mut i: usize = 0;
    while i < v.len()
        invariant
            i <= v.len(),
            out.len() == i,
            forall|k: int| 0 <= k < i ==> out[k]@ == v[k]@,
        decreases v.len() - i,
    {
        out.push(v[i].clone());
        i = i + 1;
    }
    assert(texts(out@) =~= texts(v@));
    out
}

impl Clone for FieldConfig {
    fn clone(&self) -> (r: Self)
        ensures
            r@ == self@,
    {
        FieldConfig {
            rename: clone_option_string(&self.rename),
            rust_type_wrapper: self.rust_type_wrapper,
        }
    }
}

impl Clone for Field {
    fn clone(&self) -> (r: Self)
        ensures
            r@ == self@,
    {
        Field {
            name: self.name.clone(),
            field_type: self.field_type.clone(),
            optional: self.optional,
            configs: match &self.configs {
                Some(c) => Some(c.clone()),
                None => None,
            },
        }
    }
}

/// A copy of a list of fields.
pub fn clone_fields(v: &Vec<Field>) -> (r: Vec<Field>)
    ensures
        r@.map_values(|f: Field| f@) == v@.map_values(|f: Field| f@),
{
    let mut out: Vec<Field> = Vec::new();
    let mut i: usize = 0;
    while i < v.len()
        invariant
            i <= v.len(),
            out.len() == i,
            forall|k: int| 0 <= k < i ==> out[k]@ == v[k]@,
        decreases v.len() - i,
    {
        out.push(v[i].clone());
        i = i + 1;
    }
    assert(out@.map_values(|f: Field| f@) =~= v@.map_values(|f: Field| f@));
    out
}

impl Clone for CustomType {
    fn clone(&self) -> (r: Self)
        ensures
            r@ == self@,
    {
        match self {
            CustomType::Object { name, fields } => CustomType::Object {
                name: name.clone(),
                fields: clone_fields(fields),
            },
            CustomType::Enum { name, values } => CustomType::Enum {
                name: name.clone(),
                values: clone_strings(values),
            },
            CustomType::ObjectEnum { name, type_tag, values, configs } => CustomType::ObjectEnum {
                name: name.clone(),
                type_tag: type_tag.clone(),
                values: clone_strings(values),
                configs: *configs,
            },
            CustomType::List { name, item_type } => CustomType::List {
                name: name.clone(),
                item_type: item_type.clone(),
            },
            CustomType::Mapping { name, key_type, value_type } => CustomType::Mapping {
                name: name.clone(),
                key_type: key_type.clone(),
                value_type: value_type.clone(),
            },
        }
    }
}

impl Clone for DefinitionConfig {
    fn clone(&self) -> (r: Self)
        ensures
            r@ == self@,
    {
        DefinitionConfig { rust_package: clone_option_string(&self.rust_package) }
    }
}

impl Clone for Definition {
    fn clone(&self) -> (r: Self)
        ensures
            r@ == self@,
    {
        let mut types: Vec<CustomType> = Vec::new();
        let mut i: usize = 0;
        while i < self.types.len()
            invariant
                i <= self.types.len(),
                types.len() == i,
                forall|k: int| 0 <= k < i ==> types[k]@ == self.types[k]@,
            decreases self.types.len() - i,
        {
            types.push(self.types[i].clone());
            i = i + 1;
        }
        assert(types@.map_values(|t: CustomType| t@) =~= self.types@.map_values(|t: CustomType| t@));
        Definition { types, configs: self.configs.clone() }
    }
}

impl CustomType {
    /// The name under which the type is declared.
    pub fn name(&self) -> (r: &str)
        ensures
            r@ == self@.declared_name(),
    {
        match self {
            CustomType::Object { name, .. } => name.as_str(),
            CustomType::Enum { name, .. } => name.as_str(),
            CustomType::ObjectEnum { name, .. } => name.as_str(),
            CustomType::List { name, .. } => name.as_str(),
            CustomType::Mapping { name, .. } => name.as_str(),
        }
    }
}

} // verus!
