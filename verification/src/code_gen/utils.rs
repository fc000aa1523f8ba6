//! Building the type dictionary out of the definitions, and names in snake
//! case.

use crate::code_gen::abi::type_dict::{
    distinct_names, entry_named, has_name, lemma_position_of, names_of, position_of, TypeDict,
};
use crate::code_gen::abi::type_info::{
    EnumTypeInfo, EnumTypeInfoView, ListTypeInfo, ListTypeInfoView, MapTypeInfo, MapTypeInfoView,
    ObjectEnumTypeInfo, ObjectEnumTypeInfoView, ObjectEnumValue, ObjectEnumValueView, ObjectField,
    ObjectFieldView, ObjectTypeInfo, ObjectTypeInfoView, TypeInfo, TypeInfoView, TypeName,
    TypeNameView,
};
use crate::code_gen::abi::{result_view, CodeGenContext, PreProcessor};
use crate::code_gen::error::{GenError, GenErrorView};
use crate::definitions::{
    clone_strings, texts, CustomType, CustomTypeView, Definition, DefinitionView, Field, FieldView,
};
use vstd::prelude::*;

verus! {

/// The custom types of all definitions, in order.
pub open spec fn all_types(definitions: Seq<DefinitionView>) -> Seq<CustomTypeView>
    decreases definitions.len(),
{
    if definitions.len() == 0 {
        Seq::empty()
    } else {
        all_types(definitions.drop_last()) + definitions.last().types
    }
}

/// The names under which the types are declared, in order.
pub open spec fn type_names(types: Seq<CustomTypeView>) -> Seq<Seq<char>> {
    types.map_values(|t: CustomTypeView| t.declared_name())
}

/// The values of all the tagged unions among the types, in order.
pub open spec fn union_values(types: Seq<CustomTypeView>) -> Seq<Seq<char>>
    decreases types.len(),
{
    if types.len() == 0 {
        Seq::empty()
    } else {
        let rest = union_values(types.drop_last());
        match types.last() {
            CustomTypeView::ObjectEnum { values, .. } => rest + values,
            _ => rest,
        }
    }
}

/// The name of every type that the definitions declare.
pub open spec fn declared_names(definitions: Seq<DefinitionView>) -> Seq<Seq<char>> {
    type_names(all_types(definitions))
}

/// Every value of every tagged union that the definitions declare.
pub open spec fn declared_payloads(definitions: Seq<DefinitionView>) -> Seq<Seq<char>> {
    union_values(all_types(definitions))
}

/// A value of a tagged union is a payload where it is the name of a
/// declared type, and a literal where it is not.
pub open spec fn classify_value(value: Seq<char>, declared: Seq<Seq<char>>) -> ObjectEnumValueView {
    if declared.contains(value) {
        ObjectEnumValueView::CustomType(value)
    } else {
        ObjectEnumValueView::Simple(value)
    }
}

/// The resolved form of a declared type: stamped with its package, its
/// type tokens told apart, its union values classified, and an object
/// marked where some tagged union carries it.
pub open spec fn resolve_type(
    t: CustomTypeView,
    package: Seq<char>,
    declared: Seq<Seq<char>>,
    payloads: Seq<Seq<char>>,
) -> TypeInfoView {
    match t {
        CustomTypeView::Object { name, fields } => TypeInfoView::Object(
            ObjectTypeInfoView {
                package,
                name,
                fields: fields.map_values(|f: FieldView| ObjectFieldView::of_field(f)),
                is_object_enum_value: payloads.contains(name),
            },
        ),
        CustomTypeView::Enum { name, values } => TypeInfoView::Enum(
            EnumTypeInfoView { package, name, values },
        ),
        CustomTypeView::ObjectEnum { name, type_tag, values, configs } => TypeInfoView::ObjectEnum(
            ObjectEnumTypeInfoView {
                package,
                name,
                type_tag,
                values: values.map_values(|v: Seq<char>| classify_value(v, declared)),
                configs,
            },
        ),
        CustomTypeView::List { name, item_type } => TypeInfoView::List(
            ListTypeInfoView { package, name, item_type: TypeNameView::of_token(item_type) },
        ),
        CustomTypeView::Mapping { name, key_type, value_type } => TypeInfoView::Mapping(
            MapTypeInfoView {
                package,
                name,
                key_type: TypeNameView::of_token(key_type),
                value_type: TypeNameView::of_token(value_type),
            },
        ),
    }
}

/// The dictionary after the types of one definition have been put in, one
/// after the other. The first type whose name is already there stops it.
pub open spec fn add_types(
    dict: Seq<TypeInfoView>,
    types: Seq<CustomTypeView>,
    package: Seq<char>,
    declared: Seq<Seq<char>>,
    payloads: Seq<Seq<char>>,
) -> Result<Seq<TypeInfoView>, GenErrorView>
    decreases types.len(),
{
    if types.len() == 0 {
        Ok(dict)
    } else {
        match add_types(dict, types.drop_last(), package, declared, payloads) {
            Err(e) => Err(e),
            Ok(d) => {
                let t = types.last();
                if has_name(d, t.declared_name()) {
                    Err(GenErrorView::DuplicateTypeName(t.declared_name()))
                } else {
                    Ok(d.push(resolve_type(t, package, declared, payloads)))
                }
            },
        }
    }
}

/// The dictionary after the definitions have been put in, one after the
/// other. A definition without a package stops it, with the resolver's
/// error.
pub open spec fn add_definitions<C: CodeGenContext, P: PreProcessor<C>>(
    definitions: Seq<DefinitionView>,
    pre_processor: P,
    declared: Seq<Seq<char>>,
    payloads: Seq<Seq<char>>,
) -> Result<Seq<TypeInfoView>, GenErrorView>
    decreases definitions.len(),
{
    if definitions.len() == 0 {
        Ok(Seq::empty())
    } else {
        match add_definitions(definitions.drop_last(), pre_processor, declared, payloads) {
            Err(e) => Err(e),
            Ok(d) => match pre_processor.package_name(definitions.last()) {
                Err(e) => Err(e),
                Ok(package) => add_types(d, definitions.last().types, package, declared, payloads),
            },
        }
    }
}

/// The dictionary of the definitions, or the first failure on the way.
pub open spec fn type_dict_of<C: CodeGenContext, P: PreProcessor<C>>(
    definitions: Seq<DefinitionView>,
    pre_processor: P,
) -> Result<Seq<TypeInfoView>, GenErrorView> {
    add_definitions(
        definitions,
        pre_processor,
        declared_names(definitions),
        declared_payloads(definitions),
    )
}

/// The views of the definitions of a list, in order.
pub open spec fn definition_views(definitions: Seq<Definition>) -> Seq<DefinitionView> {
    definitions.map_values(|d: Definition| d@)
}

/// Whether a list of strings holds one with these characters.
pub fn contains_string(list: &Vec<String>, wanted: &String) -> (r: bool)
    ensures
        r == texts(list@).contains(wanted@),
{
    let mut i: usize = 0;
    while i < list.len()
        invariant
            i <= list.len(),
            forall|k: int| 0 <= k < i ==> texts(list@)[k] != wanted@,
        decreases list.len() - i,
    {
        if list[i] == *wanted {
            assert(texts(list@)[i as int] == wanted@);
            return true;
        }
        i = i + 1;
    }
    false
}

/// What goes before the types of a definition is what the prefix of the
/// definitions holds.
proof fn lemma_all_types_step(definitions: Seq<DefinitionView>, k: int)
    requires
        0 <= k < definitions.len(),
    ensures
        all_types(definitions.take(k + 1)) == all_types(definitions.take(k)) + definitions[k].types,
{
    assert(definitions.take(k + 1).drop_last() =~= definitions.take(k));
}

/// One more type adds its values, where it is a tagged union.
proof fn lemma_union_values_step(types: Seq<CustomTypeView>, extra: CustomTypeView)
    ensures
        union_values(types.push(extra)) == union_values(types) + (match extra {
            CustomTypeView::ObjectEnum { values, .. } => values,
            _ => Seq::empty(),
        }),
{
    assert(types.push(extra).drop_last() =~= types);
    match extra {
        CustomTypeView::ObjectEnum { values, .. } => {},
        _ => {
            assert(union_values(types) + Seq::<Seq<char>>::empty() =~= union_values(types));
        },
    }
}

/// The names of every declared type and the values of every tagged union.
fn collect_names(definitions: &Vec<Definition>) -> (r: (Vec<String>, Vec<String>))
    ensures
        texts(r.0@) == declared_names(definition_views(definitions@)),
        texts(r.1@) == declared_payloads(definition_views(definitions@)),
{
    let ghost defs = definition_views(definitions@);
    let mut all_names: Vec<String> = Vec::new();
    let mut payload_names: Vec<String> = Vec::new();
    let mut k: usize = 0;
    assert(defs.take(0) =~= Seq::<DefinitionView>::empty());
    assert(texts(all_names@) =~= type_names(Seq::<CustomTypeView>::empty()));
    assert(texts(payload_names@) =~= union_values(Seq::<CustomTypeView>::empty()));
    while k < definitions.len()
        invariant
            k <= definitions.len(),
            defs == definition_views(definitions@),
            texts(all_names@) == type_names(all_types(defs.take(k as int))),
            texts(payload_names@) == union_values(all_types(defs.take(k as int))),
        decreases definitions.len() - k,
    {
        let d = &definitions[k];
        let ghost before = all_types(defs.take(k as int));
        let ghost types = d@.types;
        let mut j: usize = 0;
        assert(before + types.take(0) =~= before);
        while j < d.types.len()
            invariant
                j <= d.types.len(),
                types == d@.types,
                types.len() == d.types.len(),
                texts(all_names@) == type_names(before + types.take(j as int)),
                texts(payload_names@) == union_values(before + types.take(j as int)),
            decreases d.types.len() - j,
        {
            let t = &d.types[j];
            let ghost sofar = before + types.take(j as int);
            let ghost names_before = texts(all_names@);
            let ghost values_before = texts(payload_names@);
            proof {
                assert(types[j as int] == t@);
                assert(before + types.take(j + 1) =~= sofar.push(t@));
                lemma_union_values_step(sofar, t@);
            }
            all_names.push(t.name().to_owned());
            assert(texts(all_names@) =~= names_before.push(t@.declared_name()));
            assert(type_names(sofar.push(t@)) =~= type_names(sofar).push(t@.declared_name()));
            if let CustomType::ObjectEnum { values, .. } = t {
                let mut v: usize = 0;
                while v < values.len()
                    invariant
                        v <= values.len(),
                        texts(payload_names@) == values_before + texts(values@).take(v as int),
                    decreases values.len() - v,
                {
                    let ghost cur = texts(payload_names@);
                    payload_names.push(values[v].clone());
                    assert(texts(payload_names@) =~= cur.push(values[v as int]@));
                    assert(texts(values@).take(v + 1) =~= texts(values@).take(v as int).push(
                        values[v as int]@,
                    ));
                    v = v + 1;
                    assert(texts(payload_names@) =~= values_before + texts(values@).take(v as int));
                }
                assert(texts(values@).take(v as int) =~= texts(values@));
            } else {
                assert(values_before + Seq::<Seq<char>>::empty() =~= values_before);
            }
            j = j + 1;
        }
        proof {
            assert(types.take(j as int) =~= types);
            assert(defs[k as int] == d@);
            lemma_all_types_step(defs, k as int);
        }
        k = k + 1;
    }
    assert(defs.take(k as int) =~= defs);
    (all_names, payload_names)
}

/// Once putting the types in has failed, the failure stays.
proof fn lemma_add_types_failed(
    dict: Seq<TypeInfoView>,
    types: Seq<CustomTypeView>,
    package: Seq<char>,
    declared: Seq<Seq<char>>,
    payloads: Seq<Seq<char>>,
    j: int,
    m: int,
)
    requires
        0 <= j <= m <= types.len(),
        add_types(dict, types.take(j), package, declared, payloads) is Err,
    ensures
        add_types(dict, types.take(m), package, declared, payloads) == add_types(
            dict,
            types.take(j),
            package,
            declared,
            payloads,
        ),
    decreases m - j,
{
    if j < m {
        lemma_add_types_failed(dict, types, package, declared, payloads, j, m - 1);
        assert(types.take(m).drop_last() =~= types.take(m - 1));
    }
}

/// Once putting the definitions in has failed, the failure stays.
proof fn lemma_add_definitions_failed<C: CodeGenContext, P: PreProcessor<C>>(
    definitions: Seq<DefinitionView>,
    pre_processor: P,
    declared: Seq<Seq<char>>,
    payloads: Seq<Seq<char>>,
    k: int,
    m: int,
)
    requires
        0 <= k <= m <= definitions.len(),
        add_definitions(definitions.take(k), pre_processor, declared, payloads) is Err,
    ensures
        add_definitions(definitions.take(m), pre_processor, declared, payloads) == add_definitions(
            definitions.take(k),
            pre_processor,
            declared,
            payloads,
        ),
    decreases m - k,
{
    if k < m {
        lemma_add_definitions_failed(definitions, pre_processor, declared, payloads, k, m - 1);
        assert(definitions.take(m).drop_last() =~= definitions.take(m - 1));
    }
}

/// Resolves the fields of an object.
fn resolve_fields(fields: &Vec<Field>) -> (r: Vec<ObjectField>)
    ensures
        r@.map_values(|f: ObjectField| f@) == fields@.map_values(|f: Field| f@).map_values(
            |f: FieldView| ObjectFieldView::of_field(f),
        ),
{
    let mut out: Vec<ObjectField> = Vec::new();
    let mut i: usize = 0;
    while i < fields.len()
        invariant
            i <= fields.len(),
            out.len() == i,
            forall|k: int| 0 <= k < i ==> out[k]@ == ObjectFieldView::of_field(fields[k]@),
        decreases fields.len() - i,
    {
        out.push(ObjectField::from(&fields[i]));
        i = i + 1;
    }
    assert(out@.map_values(|f: ObjectField| f@) =~= fields@.map_values(|f: Field| f@).map_values(
        |f: FieldView| ObjectFieldView::of_field(f),
    ));
    out
}

/// Classifies the values of a tagged union.
fn classify_values(values: &Vec<String>, all_names: &Vec<String>) -> (r: Vec<ObjectEnumValue>)
    ensures
        r@.map_values(|v: ObjectEnumValue| v@) == texts(values@).map_values(
            |v: Seq<char>| classify_value(v, texts(all_names@)),
        ),
{
    let mut out: Vec<ObjectEnumValue> = Vec::new();
    let mut i: usize = 0;
    while i < values.len()
        invariant
            i <= values.len(),
            out.len() == i,
            forall|k: int| 0 <= k < i ==> out[k]@ == classify_value(values[k]@, texts(all_names@)),
        decreases values.len() - i,
    {
        let v = &values[i];
        if contains_string(all_names, v) {
            out.push(ObjectEnumValue::CustomType(v.clone()));
        } else {
            out.push(ObjectEnumValue::Simple(v.clone()));
        }
        i = i + 1;
    }
    assert(out@.map_values(|v: ObjectEnumValue| v@) =~= texts(values@).map_values(
        |v: Seq<char>| classify_value(v, texts(all_names@)),
    ));
    out
}

/// Resolves one declared type.
fn resolve(
    t: &CustomType,
    package: &String,
    all_names: &Vec<String>,
    payload_names: &Vec<String>,
) -> (r: TypeInfo)
    ensures
        r@ == resolve_type(t@, package@, texts(all_names@), texts(payload_names@)),
{
    match t {
        CustomType::Object { name, fields } => {
            let fields = resolve_fields(fields);
            let is_object_enum_value = contains_string(payload_names, name);
            TypeInfo::Object(
                ObjectTypeInfo {
                    package: package.clone(),
                    name: name.clone(),
                    fields,
                    is_object_enum_value,
                },
            )
        },
        CustomType::Enum { name, values } => TypeInfo::Enum(
            EnumTypeInfo { package: package.clone(), name: name.clone(), values: clone_strings(values) },
        ),
        CustomType::ObjectEnum { name, type_tag, values, configs } => {
            let values = classify_values(values, all_names);
            TypeInfo::ObjectEnum(
                ObjectEnumTypeInfo {
                    package: package.clone(),
                    name: name.clone(),
                    type_tag: type_tag.clone(),
                    values,
                    configs: *configs,
                },
            )
        },
        CustomType::List { name, item_type } => TypeInfo::List(
            ListTypeInfo {
                package: package.clone(),
                name: name.clone(),
                item_type: TypeName::from_str(item_type.as_str()),
            },
        ),
        CustomType::Mapping { name, key_type, value_type } => TypeInfo::Mapping(
            MapTypeInfo {
                package: package.clone(),
                name: name.clone(),
                key_type: TypeName::from_str(key_type.as_str()),
                value_type: TypeName::from_str(value_type.as_str()),
            },
        ),
    }
}

/// Builds the dictionary of all the types that the definitions declare.
///
/// A first pass collects the name of every declared type and every value
/// of every tagged union. A second pass asks the resolver for the package
/// of each definition, resolves each of its types and puts it into the
/// dictionary. It fails where a definition has no package, with the
/// resolver's error, and where a name is declared twice.
pub fn build_type_dict<C: CodeGenContext, P: PreProcessor<C>>(
    definitions: &Vec<Definition>,
    pre_processor: &P,
) -> (r: Result<TypeDict, GenError>)
    ensures
        result_view(r) == type_dict_of(definition_views(definitions@), *pre_processor),
{
    let (all_names, payload_names) = collect_names(definitions);
    let ghost defs = definition_views(definitions@);
    let ghost declared = declared_names(defs);
    let ghost payloads = declared_payloads(defs);
    let mut all_types = TypeDict::new();
    let mut k: usize = 0;
    assert(defs.take(0) =~= Seq::<DefinitionView>::empty());
    while k < definitions.len()
        invariant
            k <= definitions.len(),
            defs == definition_views(definitions@),
            declared == texts(all_names@),
            payloads == texts(payload_names@),
            declared == declared_names(defs),
            payloads == declared_payloads(defs),
            add_definitions(defs.take(k as int), *pre_processor, declared, payloads) == Ok::<
                Seq<TypeInfoView>,
                GenErrorView,
            >(all_types@),
        decreases definitions.len() - k,
    {
        let d = &definitions[k];
        let ghost before = all_types@;
        let ghost types = d@.types;
        proof {
            assert(defs[k as int] == d@);
            assert(defs.take(k + 1).drop_last() =~= defs.take(k as int));
            assert(defs.take(k + 1).last() == d@);
            assert(defs.take(defs.len() as int) =~= defs);
        }
        let package = match pre_processor.get_package_name(d) {
            Ok(package) => package,
            Err(e) => {
                proof {
                    lemma_add_definitions_failed(
                        defs,
                        *pre_processor,
                        declared,
                        payloads,
                        k + 1,
                        defs.len() as int,
                    );
                }
                return Err(e);
            },
        };
        let mut j: usize = 0;
        assert(types.take(0) =~= Seq::<CustomTypeView>::empty());
        while j < d.types.len()
            invariant
                j <= d.types.len(),
                types == d@.types,
                types.len() == d.types.len(),
                defs == definition_views(definitions@),
                declared == texts(all_names@),
                payloads == texts(payload_names@),
                declared == declared_names(defs),
                payloads == declared_payloads(defs),
                add_types(before, types.take(j as int), package@, declared, payloads) == Ok::<
                    Seq<TypeInfoView>,
                    GenErrorView,
                >(all_types@),
                0 <= k < defs.len(),
                defs.take(k + 1).drop_last() == defs.take(k as int),
                defs.take(k + 1).last() == d@,
                defs.take(defs.len() as int) == defs,
                pre_processor.package_name(d@) == Ok::<Seq<char>, GenErrorView>(package@),
                add_definitions(defs.take(k as int), *pre_processor, declared, payloads) == Ok::<
                    Seq<TypeInfoView>,
                    GenErrorView,
                >(before),
            decreases d.types.len() - j,
        {
            let t = &d.types[j];
            proof {
                assert(types[j as int] == t@);
                assert(types.take(j + 1).drop_last() =~= types.take(j as int));
                assert(types.take(j + 1).last() == t@);
                assert(types.take(types.len() as int) =~= types);
            }
            let type_info = resolve(t, &package, &all_names, &payload_names);
            match all_types.insert(type_info) {
                Ok(_) => {},
                Err(e) => {
                    proof {
                        lemma_add_types_failed(
                            before,
                            types,
                            package@,
                            declared,
                            payloads,
                            j + 1,
                            types.len() as int,
                        );
                        lemma_add_definitions_failed(
                            defs,
                            *pre_processor,
                            declared,
                            payloads,
                            k + 1,
                            defs.len() as int,
                        );
                    }
                    return Err(e);
                },
            }
            j = j + 1;
        }
        assert(types.take(j as int) =~= types);
        k = k + 1;
    }
    assert(defs.take(k as int) =~= defs);
    Ok(all_types)
}

/// Whether `char::is_uppercase` holds of the character.
pub uninterp spec fn char_is_uppercase(c: char) -> bool;

/// The characters that `char::to_lowercase` gives for the character.
pub uninterp spec fn char_to_lowercase(c: char) -> Seq<char>;

/// `char::is_uppercase`: whether the character has the Unicode property
/// `Uppercase`. The contract only names the result.
#[verifier::external_body]
fn is_uppercase(c: char) -> (r: bool)
    ensures
        r == char_is_uppercase(c),
{
    c.is_uppercase()
}

/// `char::to_lowercase`: the lowercase mapping of the character, which may
/// be more than one character, as a string. The contract only names the
/// result.
#[verifier::external_body]
fn to_lowercase(c: char) -> (r: String)
    ensures
        r@ == char_to_lowercase(c),
{
    c.to_lowercase().collect()
}

/// `String::push`: the character is added at the end of the string.
#[verifier::external_body]
pub(crate) fn push_char(s: &mut String, c: char)
    ensures
        final(s)@ == old(s)@.push(c),
{
    s.push(c)
}

/// What one character adds to a name in snake case that stands at `out` so
/// far: an underscore before an uppercase character that is neither the
/// first thing written nor the last character, then the character in
/// lowercase.
pub open spec fn snake_case_step(out: Seq<char>, upper: bool, lower: Seq<char>, last: bool) -> Seq<char> {
    if upper && out.len() > 0 && !last {
        out + "_"@ + lower
    } else {
        out + lower
    }
}

/// The first `n` characters of a name, in snake case.
pub open spec fn snake_case_prefix(s: Seq<char>, n: nat) -> Seq<char>
    decreases n,
{
    if n == 0 || n > s.len() {
        Seq::empty()
    } else {
        snake_case_step(
            snake_case_prefix(s, (n - 1) as nat),
            char_is_uppercase(s[n - 1]),
            char_to_lowercase(s[n - 1]),
            n == s.len(),
        )
    }
}

/// A name in snake case.
pub open spec fn snake_case(s: Seq<char>) -> Seq<char> {
    snake_case_prefix(s, s.len())
}

/// Adds one character of a name to its snake case form: `upper` says
/// whether the character is uppercase, `lower` is its lowercase form and
/// `last` says whether it is the last of the name.
pub fn push_snake_case(out: &mut String, upper: bool, lower: &str, last: bool)
    ensures
        final(out)@ == snake_case_step(old(out)@, upper, lower@, last),
{
    if upper && !out.as_str().is_empty() && !last {
        out.append("_");
    }
    out.append(lower);
}

/// The name in snake case: all in lowercase, with an underscore before
/// each uppercase character but the first and the last.
pub fn to_snake_case(s: &str) -> (r: String)
    ensures
        r@ == snake_case(s@),
{
    let mut snake_case = String::new();
    let n = s.unicode_len();
    let mut i: usize = 0;
    for c in chars: s.chars()
        invariant
            i == chars.index(),
            chars.seq() == s@,
            n == s@.len(),
            snake_case@ == snake_case_prefix(s@, i as nat),
    {
        let lower = to_lowercase(c);
        push_snake_case(&mut snake_case, is_uppercase(c), lower.as_str(), i + 1 == n);
        i = i + 1;
    }
    snake_case
}

/// A resolved type has the name under which it was declared.
pub proof fn lemma_resolved_name(
    t: CustomTypeView,
    package: Seq<char>,
    declared: Seq<Seq<char>>,
    payloads: Seq<Seq<char>>,
)
    ensures
        resolve_type(t, package, declared, payloads).name() == t.declared_name(),
        resolve_type(t, package, declared, payloads).package() == package,
{
}

/// Where the types of a definition have all been put in, the dictionary
/// holds what it held and then each of them resolved, and its names are
/// distinct if they were.
pub proof fn lemma_add_types_ok(
    dict: Seq<TypeInfoView>,
    types: Seq<CustomTypeView>,
    package: Seq<char>,
    declared: Seq<Seq<char>>,
    payloads: Seq<Seq<char>>,
)
    requires
        add_types(dict, types, package, declared, payloads) is Ok,
    ensures
        ({
            let d = add_types(dict, types, package, declared, payloads)->Ok_0;
            &&& d.len() == dict.len() + types.len()
            &&& forall|k: int| 0 <= k < dict.len() ==> #[trigger] d[k] == dict[k]
            &&& forall|k: int|
                0 <= k < types.len() ==> #[trigger] d[dict.len() + k] == resolve_type(
                    types[k],
                    package,
                    declared,
                    payloads,
                )
            &&& distinct_names(dict) ==> distinct_names(d)
        }),
    decreases types.len(),
{
    if types.len() > 0 {
        let front = types.drop_last();
        lemma_add_types_ok(dict, front, package, declared, payloads);
        let before = add_types(dict, front, package, declared, payloads)->Ok_0;
        let d = add_types(dict, types, package, declared, payloads)->Ok_0;
        let t = types.last();
        let r = resolve_type(t, package, declared, payloads);
        lemma_resolved_name(t, package, declared, payloads);
        assert(d == before.push(r));
        assert forall|k: int| 0 <= k < types.len() implies #[trigger] d[dict.len() + k] == resolve_type(
            types[k],
            package,
            declared,
            payloads,
        ) by {
            if k < front.len() {
                assert(before[dict.len() + k] == resolve_type(front[k], package, declared, payloads));
            }
        }
        if distinct_names(dict) {
            assert forall|i: int, j: int| 0 <= i < j < d.len() implies (#[trigger] d[i]).name() != (
            #[trigger] d[j]).name() by {
                if j < before.len() {
                    assert(before[i].name() != before[j].name());
                } else {
                    assert(d[j] == r);
                    if d[i].name() == r.name() {
                        assert(before[i].name() == t.declared_name());
                    }
                }
            }
        }
    }
}

/// Where the definitions have all been put in, the dictionary holds each
/// of their types resolved, in order, and its names are distinct.
pub proof fn lemma_add_definitions_ok<C: CodeGenContext, P: PreProcessor<C>>(
    definitions: Seq<DefinitionView>,
    pre_processor: P,
    declared: Seq<Seq<char>>,
    payloads: Seq<Seq<char>>,
)
    requires
        add_definitions(definitions, pre_processor, declared, payloads) is Ok,
    ensures
        ({
            let d = add_definitions(definitions, pre_processor, declared, payloads)->Ok_0;
            let all = all_types(definitions);
            &&& d.len() == all.len()
            &&& forall|k: int|
                0 <= k < d.len() ==> #[trigger] d[k] == resolve_type(all[k], d[k].package(), declared, payloads)
            &&& distinct_names(d)
        }),
    decreases definitions.len(),
{
    if definitions.len() > 0 {
        let front = definitions.drop_last();
        lemma_add_definitions_ok(front, pre_processor, declared, payloads);
        let before = add_definitions(front, pre_processor, declared, payloads)->Ok_0;
        let package = pre_processor.package_name(definitions.last())->Ok_0;
        let types = definitions.last().types;
        lemma_add_types_ok(before, types, package, declared, payloads);
        let d = add_definitions(definitions, pre_processor, declared, payloads)->Ok_0;
        let all = all_types(definitions);
        assert forall|k: int| 0 <= k < d.len() implies #[trigger] d[k] == resolve_type(
            all[k],
            d[k].package(),
            declared,
            payloads,
        ) by {
            if k < before.len() {
                assert(d[k] == before[k]);
                assert(all[k] == all_types(front)[k]);
            } else {
                let j = k - before.len();
                assert(d[before.len() + j] == resolve_type(types[j], package, declared, payloads));
                assert(all[k] == types[j]);
                lemma_resolved_name(types[j], package, declared, payloads);
            }
        }
    }
}

/// The dictionary that is built holds each declared type resolved, in the
/// order of the declarations, under the name under which it was declared,
/// and no two of its types share a name.
pub proof fn lemma_type_dict_ok<C: CodeGenContext, P: PreProcessor<C>>(
    definitions: Seq<DefinitionView>,
    pre_processor: P,
)
    requires
        type_dict_of(definitions, pre_processor) is Ok,
    ensures
        ({
            let d = type_dict_of(definitions, pre_processor)->Ok_0;
            &&& names_of(d) == declared_names(definitions)
            &&& distinct_names(d)
            &&& forall|k: int|
                0 <= k < d.len() ==> #[trigger] d[k] == resolve_type(
                    all_types(definitions)[k],
                    d[k].package(),
                    declared_names(definitions),
                    declared_payloads(definitions),
                )
        }),
{
    let declared = declared_names(definitions);
    let payloads = declared_payloads(definitions);
    lemma_add_definitions_ok(definitions, pre_processor, declared, payloads);
    let d = type_dict_of(definitions, pre_processor)->Ok_0;
    let all = all_types(definitions);
    assert(names_of(d) =~= declared) by {
        assert forall|k: int| 0 <= k < d.len() implies names_of(d)[k] == declared[k] by {
            assert(d[k] == resolve_type(all[k], d[k].package(), declared, payloads));
            lemma_resolved_name(all[k], d[k].package(), declared, payloads);
        }
    }
}

/// Uniqueness: where two of the declared types, across all definitions,
/// share a name, no dictionary is built.
pub proof fn lemma_shared_name_fails<C: CodeGenContext, P: PreProcessor<C>>(
    definitions: Seq<DefinitionView>,
    pre_processor: P,
    i: int,
    j: int,
)
    requires
        0 <= i < j < declared_names(definitions).len(),
        declared_names(definitions)[i] == declared_names(definitions)[j],
    ensures
        type_dict_of(definitions, pre_processor) is Err,
{
    if type_dict_of(definitions, pre_processor) is Ok {
        lemma_type_dict_ok(definitions, pre_processor);
        let d = type_dict_of(definitions, pre_processor)->Ok_0;
        assert(names_of(d)[i] == d[i].name());
        assert(names_of(d)[j] == d[j].name());
        assert(d[i].name() != d[j].name());
    }
}

/// A name is that of an entry where it is among the names of the entries.
pub proof fn lemma_has_name(entries: Seq<TypeInfoView>, name: Seq<char>)
    ensures
        has_name(entries, name) <==> names_of(entries).contains(name),
{
    if has_name(entries, name) {
        let i = choose|i: int| 0 <= i < entries.len() && (#[trigger] entries[i]).name() == name;
        assert(names_of(entries)[i] == name);
    }
    if names_of(entries).contains(name) {
        let i = choose|i: int| 0 <= i < names_of(entries).len() && names_of(entries)[i] == name;
        assert(entries[i].name() == name);
    }
}

/// The values of a tagged union among the types are among the values of
/// all their tagged unions.
proof fn lemma_union_values_hold(types: Seq<CustomTypeView>, k: int, v: int)
    requires
        0 <= k < types.len(),
        types[k] is ObjectEnum,
        0 <= v < types[k]->ObjectEnum_values.len(),
    ensures
        union_values(types).contains(types[k]->ObjectEnum_values[v]),
    decreases types.len(),
{
    let rest = union_values(types.drop_last());
    let wanted = types[k]->ObjectEnum_values[v];
    if k < types.len() - 1 {
        lemma_union_values_hold(types.drop_last(), k, v);
        let i = choose|i: int| 0 <= i < rest.len() && rest[i] == wanted;
        match types.last() {
            CustomTypeView::ObjectEnum { values, .. } => {
                assert((rest + values)[i] == wanted);
            },
            _ => {},
        }
    } else {
        let values = types[k]->ObjectEnum_values;
        assert((rest + values)[rest.len() + v] == wanted);
    }
}

/// The classification of the values of tagged unions: in the dictionary
/// that is built, a value of a tagged union is a literal where its text is
/// the name of no type of the dictionary, and only there; else it is a
/// payload, and where the type of that name is an object, the object is
/// marked as the payload of a tagged union.
pub proof fn lemma_union_values_classified<C: CodeGenContext, P: PreProcessor<C>>(
    definitions: Seq<DefinitionView>,
    pre_processor: P,
    k: int,
    v: int,
)
    requires
        type_dict_of(definitions, pre_processor) is Ok,
        0 <= k < type_dict_of(definitions, pre_processor)->Ok_0.len(),
        type_dict_of(definitions, pre_processor)->Ok_0[k] is ObjectEnum,
        0 <= v < type_dict_of(definitions, pre_processor)->Ok_0[k]->ObjectEnum_0.values.len(),
    ensures
        ({
            let d = type_dict_of(definitions, pre_processor)->Ok_0;
            match d[k]->ObjectEnum_0.values[v] {
                ObjectEnumValueView::Simple(text) => !has_name(d, text),
                ObjectEnumValueView::CustomType(text) => {
                    &&& has_name(d, text)
                    &&& entry_named(d, text) matches Some(TypeInfoView::Object(o)) ==> o.is_object_enum_value
                },
            }
        }),
{
    let d = type_dict_of(definitions, pre_processor)->Ok_0;
    let all = all_types(definitions);
    let declared = declared_names(definitions);
    let payloads = declared_payloads(definitions);
    lemma_type_dict_ok(definitions, pre_processor);
    assert(d[k] == resolve_type(all[k], d[k].package(), declared, payloads));
    let values = all[k]->ObjectEnum_values;
    let text = values[v];
    assert(d[k]->ObjectEnum_0.values[v] == classify_value(text, declared));
    lemma_has_name(d, text);
    if declared.contains(text) {
        lemma_position_of(d, text);
        let p = position_of(d, text).unwrap();
        assert(d[p] == resolve_type(all[p], d[p].package(), declared, payloads));
        lemma_resolved_name(all[p], d[p].package(), declared, payloads);
        lemma_union_values_hold(all, k, v);
    }
}

} // verus!
