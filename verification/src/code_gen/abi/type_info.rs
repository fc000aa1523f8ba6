//! The resolved type model: every type of the universe with its package and
//! with each type token told apart as a primitive or a reference by name.

use crate::definitions::{
    texts, Field, FieldConfig, FieldConfigView, FieldView, SimpleType, TypeConfig,
};
use vstd::prelude::*;

verus! {

/// A resolved type of the universe.
#[derive(Debug, PartialEq)]
pub enum TypeInfo {
    Object(ObjectTypeInfo),
    Enum(EnumTypeInfo),
    ObjectEnum(ObjectEnumTypeInfo),
    List(ListTypeInfo),
    Mapping(MapTypeInfo),
}

/// The type of a field, item, key or value.
#[derive(Debug, PartialEq)]
pub enum TypeName {
    Simple(SimpleType),
    CustomType(String),
}

#[derive(Debug, PartialEq)]
pub struct ListTypeInfo {
    pub package: String,
    pub name: String,
    pub item_type: TypeName,
}

#[derive(Debug, PartialEq)]
pub struct MapTypeInfo {
    pub package: String,
    pub name: String,
    pub key_type: TypeName,
    pub value_type: TypeName,
}

#[derive(Debug, PartialEq)]
pub struct ObjectEnumTypeInfo {
    pub package: String,
    pub name: String,
    pub type_tag: String,
    pub values: Vec<ObjectEnumValue>,
    pub configs: Option<TypeConfig>,
}

/// A variant of a tagged union: a bare literal, or the name of the object
/// whose fields are its payload.
#[derive(Debug, PartialEq)]
pub enum ObjectEnumValue {
    Simple(String),
    CustomType(String),
}

#[derive(Debug, PartialEq)]
pub struct EnumTypeInfo {
    pub package: String,
    pub name: String,
    pub values: Vec<String>,
}

#[derive(Debug, PartialEq)]
pub struct ObjectTypeInfo {
    pub package: String,
    pub name: String,
    pub fields: Vec<ObjectField>,
    pub is_object_enum_value: bool,
}

#[derive(Debug, PartialEq)]
pub struct ObjectField {
    pub name: String,
    pub field_type: TypeName,
    pub config: Option<FieldConfig>,
    pub optional: Option<bool>,
}

pub enum TypeNameView {
    Simple(SimpleType),
    CustomType(Seq<char>),
}

pub struct ListTypeInfoView {
    pub package: Seq<char>,
    pub name: Seq<char>,
    pub item_type: TypeNameView,
}

pub struct MapTypeInfoView {
    pub package: Seq<char>,
    pub name: Seq<char>,
    pub key_type: TypeNameView,
    pub value_type: TypeNameView,
}

pub enum ObjectEnumValueView {
    Simple(Seq<char>),
    CustomType(Seq<char>),
}

pub struct ObjectEnumTypeInfoView {
    pub package: Seq<char>,
    pub name: Seq<char>,
    pub type_tag: Seq<char>,
    pub values: Seq<ObjectEnumValueView>,
    pub configs: Option<TypeConfig>,
}

pub struct EnumTypeInfoView {
    pub package: Seq<char>,
    pub name: Seq<char>,
    pub values: Seq<Seq<char>>,
}

pub struct ObjectFieldView {
    pub name: Seq<char>,
    pub field_type: TypeNameView,
    pub config: Option<FieldConfigView>,
    pub optional: Option<bool>,
}

pub struct ObjectTypeInfoView {
    pub package: Seq<char>,
    pub name: Seq<char>,
    pub fields: Seq<ObjectFieldView>,
    pub is_object_enum_value: bool,
}

pub enum TypeInfoView {
    Object(ObjectTypeInfoView),
    Enum(EnumTypeInfoView),
    ObjectEnum(ObjectEnumTypeInfoView),
    List(ListTypeInfoView),
    Mapping(MapTypeInfoView),
}

impl View for TypeName {
    type V = TypeNameView;

    open spec fn view(&self) -> TypeNameView {
        match *self {
            TypeName::Simple(t) => TypeNameView::Simple(t),
            TypeName::CustomType(n) => TypeNameView::CustomType(n@),
        }
    }
}

impl View for ListTypeInfo {
    type V = ListTypeInfoView;

    open spec fn view(&self) -> ListTypeInfoView {
        ListTypeInfoView { package: self.package@, name: self.name@, item_type: self.item_type@ }
    }
}

impl View for MapTypeInfo {
    type V = MapTypeInfoView;

    open spec fn view(&self) -> MapTypeInfoView {
        MapTypeInfoView {
            package: self.package@,
            name: self.name@,
            key_type: self.key_type@,
            value_type: self.value_type@,
        }
    }
}

impl View for ObjectEnumValue {
    type V = ObjectEnumValueView;

    open spec fn view(&self) -> ObjectEnumValueView {
        match *self {
            ObjectEnumValue::Simple(v) => ObjectEnumValueView::Simple(v@),
            ObjectEnumValue::CustomType(v) => ObjectEnumValueView::CustomType(v@),
        }
    }
}

impl View for ObjectEnumTypeInfo {
    type V = ObjectEnumTypeInfoView;

    open spec fn view(&self) -> ObjectEnumTypeInfoView {
        ObjectEnumTypeInfoView {
            package: self.package@,
            name: self.name@,
            type_tag: self.type_tag@,
            values: self.values@.map_values(|v: ObjectEnumValue| v@),
            configs: self.configs,
        }
    }
}

impl View for EnumTypeInfo {
    type V = EnumTypeInfoView;

    open spec fn view(&self) -> EnumTypeInfoView {
        EnumTypeInfoView { package: self.package@, name: self.name@, values: texts(self.values@) }
    }
}

impl View for ObjectField {
    type V = ObjectFieldView;

    open spec fn view(&self) -> ObjectFieldView {
        ObjectFieldView {
            name: self.name@,
            field_type: self.field_type@,
            config: match self.config {
                Some(c) => Some(c@),
                None => None,
            },
            optional: self.optional,
        }
    }
}

impl View for ObjectTypeInfo {
    type V = ObjectTypeInfoView;

    open spec fn view(&self) -> ObjectTypeInfoView {
        ObjectTypeInfoView {
            package: self.package@,
            name: self.name@,
            fields: self.fields@.map_values(|f: ObjectField| f@),
            is_object_enum_value: self.is_object_enum_value,
        }
    }
}

impl View for TypeInfo {
    type V = TypeInfoView;

    open spec fn view(&self) -> TypeInfoView {
        match *self {
            TypeInfo::Object(o) => TypeInfoView::Object(o@),
            TypeInfo::Enum(e) => TypeInfoView::Enum(e@),
            TypeInfo::ObjectEnum(e) => TypeInfoView::ObjectEnum(e@),
            TypeInfo::List(l) => TypeInfoView::List(l@),
            TypeInfo::Mapping(m) => TypeInfoView::Mapping(m@),
        }
    }
}

impl SimpleType {
    /// The canonical name of the primitive, as a type token spells it.
    pub open spec fn canonical_name(self) -> Seq<char> {
        match self {
            SimpleType::String => "String"@,
            SimpleType::Bool => "Bool"@,
            SimpleType::DateTime => "DateTime"@,
            SimpleType::UInt32 => "UInt32"@,
            SimpleType::UInt64 => "UInt64"@,
            SimpleType::Int32 => "Int32"@,
            SimpleType::Int64 => "Int64"@,
            SimpleType::Float32 => "Float32"@,
            SimpleType::Float64 => "Float64"@,
        }
    }

    /// Every primitive, in the order in which a token is held against them.
    pub open spec fn all() -> Seq<SimpleType> {
        seq![
            SimpleType::String,
            SimpleType::Bool,
            SimpleType::DateTime,
            SimpleType::UInt32,
            SimpleType::UInt64,
            SimpleType::Int32,
            SimpleType::Int64,
            SimpleType::Float32,
            SimpleType::Float64,
        ]
    }

    /// The first of the first `n` primitives that the token names.
    pub open spec fn named_among(token: Seq<char>, n: nat) -> Option<SimpleType>
        decreases n,
    {
        if n == 0 || n > Self::all().len() {
            None
        } else {
            match Self::named_among(token, (n - 1) as nat) {
                Some(t) => Some(t),
                None => if Self::all()[n - 1].canonical_name() == token {
                    Some(Self::all()[n - 1])
                } else {
                    None
                },
            }
        }
    }

    /// The primitive that the token names, if it names one.
    pub open spec fn named(token: Seq<char>) -> Option<SimpleType> {
        Self::named_among(token, Self::all().len())
    }

    pub fn all_values() -> (r: Vec<SimpleType>)
        ensures
            r@ == Self::all(),
    {
        let mut v: Vec<SimpleType> = Vec::new();
        v.push(SimpleType::String);
        v.push(SimpleType::Bool);
        v.push(SimpleType::DateTime);
        v.push(SimpleType::UInt32);
        v.push(SimpleType::UInt64);
        v.push(SimpleType::Int32);
        v.push(SimpleType::Int64);
        v.push(SimpleType::Float32);
        v.push(SimpleType::Float64);
        assert(v@ =~= Self::all());
        v
    }

    /// The canonical name of the primitive.
    pub fn to_string(&self) -> (r: String)
        ensures
            r@ == self.canonical_name(),
    {
        match self {
            SimpleType::String => String::from_str("String"),
            SimpleType::Bool => String::from_str("Bool"),
            SimpleType::DateTime => String::from_str("DateTime"),
            SimpleType::UInt32 => String::from_str("UInt32"),
            SimpleType::UInt64 => String::from_str("UInt64"),
            SimpleType::Int32 => String::from_str("Int32"),
            SimpleType::Int64 => String::from_str("Int64"),
            SimpleType::Float32 => String::from_str("Float32"),
            SimpleType::Float64 => String::from_str("Float64"),
        }
    }
}

impl TypeNameView {
    /// What a type token stands for: the primitive it names, or else a
    /// reference to the custom type of that name.
    pub open spec fn of_token(token: Seq<char>) -> TypeNameView {
        match SimpleType::named(token) {
            Some(t) => TypeNameView::Simple(t),
            None => TypeNameView::CustomType(token),
        }
    }

    pub open spec fn is_custom_type(self) -> bool {
        self is CustomType
    }
}

impl TypeName {
    pub fn is_custom_type(&self) -> (r: bool)
        ensures
            r == self@.is_custom_type(),
    {
        match self {
            TypeName::Simple(_) => false,
            TypeName::CustomType(_) => true,
        }
    }

    /// Tells a type token apart.
    pub fn from_str(field_type: &str) -> (r: TypeName)
        ensures
            r@ == TypeNameView::of_token(field_type@),
    {
        let token = field_type.to_owned();
        let all = SimpleType::all_values();
        let mut i: usize = 0;
        while i < all.len()
            invariant
                i <= all.len(),
                all@ == SimpleType::all(),
                token@ == field_type@,
                SimpleType::named_among(field_type@, i as nat) is None,
            decreases all.len() - i,
        {
            let t = all[i];
            if t.to_string() == token {
                proof {
                    lemma_named_among_found(field_type@, (i + 1) as nat, all@.len());
                }
                return TypeName::Simple(t);
            }
            i = i + 1;
        }
        TypeName::CustomType(token)
    }
}

impl Clone for TypeName {
    fn clone(&self) -> (r: Self)
        ensures
            r@ == self@,
    {
        match self {
            TypeName::Simple(t) => TypeName::Simple(*t),
            TypeName::CustomType(n) => TypeName::CustomType(n.clone()),
        }
    }
}

/// A primitive found among the first `n` is the one found among the first `m`,
/// for every `m` from `n` on.
pub proof fn lemma_named_among_found(token: Seq<char>, n: nat, m: nat)
    requires
        n <= m <= SimpleType::all().len(),
        SimpleType::named_among(token, n) is Some,
    ensures
        SimpleType::named_among(token, m) == SimpleType::named_among(token, n),
    decreases m,
{
    if n < m {
        lemma_named_among_found(token, n, (m - 1) as nat);
    }
}

impl ObjectFieldView {
    /// The resolved form of a schema field.
    pub open spec fn of_field(f: FieldView) -> ObjectFieldView {
        ObjectFieldView {
            name: f.name,
            field_type: TypeNameView::of_token(f.field_type),
            config: f.configs,
            optional: f.optional,
        }
    }

    pub open spec fn is_optional(self) -> bool {
        self.optional == Some(true)
    }
}

impl ObjectField {
    /// Resolves a schema field.
    pub fn from(f: &Field) -> (r: ObjectField)
        ensures
            r@ == ObjectFieldView::of_field(f@),
    {
        ObjectField {
            name: f.name.clone(),
            field_type: TypeName::from_str(f.field_type.as_str()),
            config: match &f.configs {
                Some(c) => Some(c.clone()),
                None => None,
            },
            optional: f.optional,
        }
    }

    pub fn is_optional(&self) -> (r: bool)
        ensures
            r == self@.is_optional(),
    {
        matches!(&self.optional, Some(true))
    }
}

/// The names that the custom types among `types` refer to, in order.
pub open spec fn custom_type_names(types: Seq<TypeNameView>) -> Seq<Seq<char>>
    decreases types.len(),
{
    if types.len() == 0 {
        Seq::empty()
    } else {
        let rest = custom_type_names(types.drop_last());
        match types.last() {
            TypeNameView::CustomType(name) => rest.push(name),
            TypeNameView::Simple(_) => rest,
        }
    }
}

/// The names of the objects that are payloads among `values`, in order.
pub open spec fn payload_names(values: Seq<ObjectEnumValueView>) -> Seq<Seq<char>>
    decreases values.len(),
{
    if values.len() == 0 {
        Seq::empty()
    } else {
        let rest = payload_names(values.drop_last());
        match values.last() {
            ObjectEnumValueView::CustomType(name) => rest.push(name),
            ObjectEnumValueView::Simple(_) => rest,
        }
    }
}

impl TypeInfoView {
    pub open spec fn name(self) -> Seq<char> {
        match self {
            TypeInfoView::Object(o) => o.name,
            TypeInfoView::Enum(e) => e.name,
            TypeInfoView::ObjectEnum(e) => e.name,
            TypeInfoView::List(l) => l.name,
            TypeInfoView::Mapping(m) => m.name,
        }
    }

    pub open spec fn package(self) -> Seq<char> {
        match self {
            TypeInfoView::Object(o) => o.package,
            TypeInfoView::Enum(e) => e.package,
            TypeInfoView::ObjectEnum(e) => e.package,
            TypeInfoView::List(l) => l.package,
            TypeInfoView::Mapping(m) => m.package,
        }
    }

    /// Whether the type is an object that some tagged union carries as a
    /// payload.
    pub open spec fn is_object_enum_value(self) -> bool {
        match self {
            TypeInfoView::Object(o) => o.is_object_enum_value,
            _ => false,
        }
    }

    /// The names of the custom types that this type refers to: those of an
    /// object's fields, of a tagged union's payloads, of a list's item and
    /// of a map's key and value. An enum refers to none.
    pub open spec fn referenced_types(self) -> Seq<Seq<char>> {
        match self {
            TypeInfoView::Object(o) => custom_type_names(
                o.fields.map_values(|f: ObjectFieldView| f.field_type),
            ),
            TypeInfoView::Enum(_) => Seq::empty(),
            TypeInfoView::ObjectEnum(e) => payload_names(e.values),
            TypeInfoView::List(l) => custom_type_names(seq![l.item_type]),
            TypeInfoView::Mapping(m) => custom_type_names(seq![m.key_type, m.value_type]),
        }
    }
}

impl TypeInfo {
    pub fn is_object_enum_value(&self) -> (r: bool)
        ensures
            r == self@.is_object_enum_value(),
    {
        match self {
            TypeInfo::Object(o) => o.is_object_enum_value,
            _ => false,
        }
    }

    pub fn get_referrenced_types(&self) -> (r: Vec<String>)
        ensures
            texts(r@) == self@.referenced_types(),
    {
        match &self {
            TypeInfo::Object(object) => {
                let mut field_types: Vec<&TypeName> = Vec::new();
                let mut i: usize = 0;
                while i < object.fields.len()
                    invariant
                        i <= object.fields.len(),
                        field_types.len() == i,
                        forall|k: int| 0 <= k < i ==> field_types[k]@ == object.fields[k].field_type@,
                    decreases object.fields.len() - i,
                {
                    field_types.push(&object.fields[i].field_type);
                    i = i + 1;
                }
                assert(field_types@.map_values(|t: &TypeName| t@) =~= object@.fields.map_values(
                    |f: ObjectFieldView| f.field_type,
                ));
                Self::get_custom_types(field_types)
            },
            TypeInfo::Enum(_) => {
                let r: Vec<String> = Vec::new();
                assert(texts(r@) =~= Seq::<Seq<char>>::empty());
                r
            },
            TypeInfo::ObjectEnum(e) => {
                let mut out: Vec<String> = Vec::new();
                let mut i: usize = 0;
                assert(e@.values.take(0) =~= Seq::<ObjectEnumValueView>::empty());
                assert(texts(out@) =~= Seq::<Seq<char>>::empty());
                while i < e.values.len()
                    invariant
                        i <= e.values.len(),
                        texts(out@) == payload_names(e@.values.take(i as int)),
                    decreases e.values.len() - i,
                {
                    let ghost before = texts(out@);
                    assert(e@.values.take(i + 1).drop_last() =~= e@.values.take(i as int));
                    assert(e@.values.take(i + 1).last() == e.values[i as int]@);
                    match &e.values[i] {
                        ObjectEnumValue::Simple(_) => {},
                        ObjectEnumValue::CustomType(t) => {
                            out.push(t.clone());
                            assert(texts(out@) =~= before.push(t@));
                        },
                    }
                    i = i + 1;
                }
                assert(e@.values.take(i as int) =~= e@.values);
                out
            },
            TypeInfo::List(l) => {
                let mut types: Vec<&TypeName> = Vec::new();
                types.push(&l.item_type);
                assert(types@.map_values(|t: &TypeName| t@) =~= seq![l@.item_type]);
                Self::get_custom_types(types)
            },
            TypeInfo::Mapping(m) => {
                let mut types: Vec<&TypeName> = Vec::new();
                types.push(&m.key_type);
                types.push(&m.value_type);
                assert(types@.map_values(|t: &TypeName| t@) =~= seq![m@.key_type, m@.value_type]);
                Self::get_custom_types(types)
            },
        }
    }

    /// The names of the custom types among `types`, in order.
    pub fn get_custom_types(types: Vec<&TypeName>) -> (r: Vec<String>)
        ensures
            texts(r@) == custom_type_names(types@.map_values(|t: &TypeName| t@)),
    {
        let ghost views = types@.map_values(|t: &TypeName| t@);
        let mut out: Vec<String> = Vec::new();
        let mut i: usize = 0;
        assert(views.take(0) =~= Seq::<TypeNameView>::empty());
        assert(texts(out@) =~= Seq::<Seq<char>>::empty());
        while i < types.len()
            invariant
                i <= types.len(),
                views == types@.map_values(|t: &TypeName| t@),
                texts(out@) == custom_type_names(views.take(i as int)),
            decreases types.len() - i,
        {
            let ghost before = texts(out@);
            assert(views.take(i + 1).drop_last() =~= views.take(i as int));
            assert(views.take(i + 1).last() == types[i as int]@);
            match types[i] {
                TypeName::CustomType(name) => {
                    out.push(name.clone());
                    assert(texts(out@) =~= before.push(name@));
                },
                TypeName::Simple(_) => {},
            }
            i = i + 1;
        }
        assert(views.take(i as int) =~= views);
        out
    }

    pub fn name(&self) -> (r: &str)
        ensures
            r@ == self@.name(),
    {
        match self {
            TypeInfo::Object(o) => o.name.as_str(),
            TypeInfo::Enum(e) => e.name.as_str(),
            TypeInfo::ObjectEnum(o) => o.name.as_str(),
            TypeInfo::List(l) => l.name.as_str(),
            TypeInfo::Mapping(m) => m.name.as_str(),
        }
    }

    pub fn package(&self) -> (r: &str)
        ensures
            r@ == self@.package(),
    {
        match self {
            TypeInfo::Object(o) => o.package.as_str(),
            TypeInfo::Enum(e) => e.package.as_str(),
            TypeInfo::ObjectEnum(o) => o.package.as_str(),
            TypeInfo::List(l) => l.package.as_str(),
            TypeInfo::Mapping(m) => m.package.as_str(),
        }
    }
}

/// No two primitives share a canonical name.
pub proof fn lemma_canonical_names_differ(a: SimpleType, b: SimpleType)
    requires
        a != b,
    ensures
        a.canonical_name() != b.canonical_name(),
{
    reveal_strlit("String");
    reveal_strlit("Bool");
    reveal_strlit("DateTime");
    reveal_strlit("UInt32");
    reveal_strlit("UInt64");
    reveal_strlit("Int32");
    reveal_strlit("Int64");
    reveal_strlit("Float32");
    reveal_strlit("Float64");
    let x = a.canonical_name();
    let y = b.canonical_name();
    if x.len() == y.len() {
        assert(x[0] != y[0] || x[4] != y[4] || x[5] != y[5]);
    }
}

/// The canonical name of a primitive is a token for that primitive, and
/// for no other.
pub proof fn lemma_canonical_name_resolves(t: SimpleType)
    ensures
        SimpleType::named(t.canonical_name()) == Some(t),
        TypeNameView::of_token(t.canonical_name()) == TypeNameView::Simple(t),
{
    let token = t.canonical_name();
    let all = SimpleType::all();
    reveal_with_fuel(SimpleType::named_among, 10);
    assert forall|k: int| 0 <= k < all.len() && all[k] != t implies all[k].canonical_name() != token by {
        lemma_canonical_names_differ(all[k], t);
    }
    assert(all[0] == SimpleType::String && all[1] == SimpleType::Bool && all[2] == SimpleType::DateTime
        && all[3] == SimpleType::UInt32 && all[4] == SimpleType::UInt64 && all[5] == SimpleType::Int32
        && all[6] == SimpleType::Int64 && all[7] == SimpleType::Float32 && all[8] == SimpleType::Float64);
}

} // verus!
