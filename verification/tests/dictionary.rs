use fluorite_codegen::code_gen::abi::type_dict::TypeDict;
use fluorite_codegen::code_gen::abi::type_info::{
    EnumTypeInfo, ListTypeInfo, MapTypeInfo, ObjectEnumTypeInfo, ObjectEnumValue, ObjectField,
    ObjectTypeInfo, TypeInfo, TypeName,
};
use fluorite_codegen::code_gen::abi::PreProcessor;
use fluorite_codegen::code_gen::error::GenError;
use fluorite_codegen::code_gen::rust::options::RustOptions;
use fluorite_codegen::code_gen::rust::pre_processor::RustPreProcessor;
use fluorite_codegen::code_gen::utils::{build_type_dict, contains_string};
use fluorite_codegen::definitions::{
    CustomType, Definition, DefinitionConfig, Field, ObjectEnumStyle, SimpleType, TypeConfig,
};

fn pre() -> RustPreProcessor {
    RustPreProcessor { options: RustOptions::new("out".to_string()) }
}

fn field(name: &str, field_type: &str) -> Field {
    Field { name: name.to_string(), field_type: field_type.to_string(), optional: None, configs: None }
}

fn definition(package: Option<&str>, types: Vec<CustomType>) -> Definition {
    Definition { types, configs: DefinitionConfig { rust_package: package.map(|p| p.to_string()) } }
}

fn object(name: &str, fields: Vec<Field>) -> CustomType {
    CustomType::Object { name: name.to_string(), fields }
}

fn an_enum(name: &str) -> TypeInfo {
    TypeInfo::Enum(EnumTypeInfo { package: "p".to_string(), name: name.to_string(), values: vec![] })
}

#[test]
fn dict_insert_and_get() {
    let mut d = TypeDict::new();
    assert_eq!(d.len(), 0);
    assert!(d.get("A").is_none());
    assert!(!d.contains_key("A"));
    assert_eq!(d.insert(an_enum("A")), Ok(()));
    assert_eq!(d.insert(an_enum("B")), Ok(()));
    assert_eq!(d.len(), 2);
    assert!(d.contains_key("A"));
    assert_eq!(d.get("B"), Some(&an_enum("B")));
    assert_eq!(d.index_of("A"), Some(0));
    assert_eq!(d.index_of("B"), Some(1));
    assert_eq!(d.index_of("C"), None);
    assert_eq!(d.entry(1), &an_enum("B"));
}

#[test]
fn dict_insert_refuses_a_second_type_of_a_name() {
    let mut d = TypeDict::new();
    assert_eq!(d.insert(an_enum("A")), Ok(()));
    let other = TypeInfo::List(ListTypeInfo {
        package: "q".to_string(),
        name: "A".to_string(),
        item_type: TypeName::Simple(SimpleType::Bool),
    });
    assert_eq!(d.insert(other), Err(GenError::DuplicateTypeName("A".to_string())));
    assert_eq!(d.len(), 1);
    assert_eq!(d.get("A"), Some(&an_enum("A")));
}

#[test]
fn contains_string_finds_what_is_there() {
    let list = vec!["a".to_string(), "b".to_string()];
    assert!(contains_string(&list, &"b".to_string()));
    assert!(!contains_string(&list, &"c".to_string()));
    assert!(!contains_string(&vec![], &"a".to_string()));
}

#[test]
fn package_name_of_a_definition() {
    let p = pre();
    assert_eq!(p.get_package_name(&definition(Some("users"), vec![])), Ok("users".to_string()));
    assert_eq!(p.get_package_name(&definition(None, vec![])), Err(GenError::MissingPackage));
}

#[test]
fn builds_every_kind_of_type() {
    let defs = vec![
        definition(
            Some("a"),
            vec![
                object("O", vec![field("x", "Int32"), field("y", "E")]),
                CustomType::Enum { name: "E".to_string(), values: vec!["V".to_string()] },
            ],
        ),
        definition(
            Some("b.c"),
            vec![
                CustomType::List { name: "L".to_string(), item_type: "O".to_string() },
                CustomType::Mapping {
                    name: "M".to_string(),
                    key_type: "String".to_string(),
                    value_type: "Nowhere".to_string(),
                },
            ],
        ),
    ];
    let d = build_type_dict(&defs, &pre()).unwrap();
    assert_eq!(d.len(), 4);
    assert_eq!(
        d.get("O"),
        Some(&TypeInfo::Object(ObjectTypeInfo {
            package: "a".to_string(),
            name: "O".to_string(),
            fields: vec![
                ObjectField {
                    name: "x".to_string(),
                    field_type: TypeName::Simple(SimpleType::Int32),
                    config: None,
                    optional: None
                },
                ObjectField {
                    name: "y".to_string(),
                    field_type: TypeName::CustomType("E".to_string()),
                    config: None,
                    optional: None
                },
            ],
            is_object_enum_value: false,
        }))
    );
    assert_eq!(
        d.entry(1),
        &TypeInfo::Enum(EnumTypeInfo {
            package: "a".to_string(),
            name: "E".to_string(),
            values: vec!["V".to_string()]
        })
    );
    assert_eq!(
        d.entry(2),
        &TypeInfo::List(ListTypeInfo {
            package: "b.c".to_string(),
            name: "L".to_string(),
            item_type: TypeName::CustomType("O".to_string())
        })
    );
    assert_eq!(
        d.entry(3),
        &TypeInfo::Mapping(MapTypeInfo {
            package: "b.c".to_string(),
            name: "M".to_string(),
            key_type: TypeName::Simple(SimpleType::String),
            value_type: TypeName::CustomType("Nowhere".to_string())
        })
    );
}

#[test]
fn no_definitions_give_an_empty_dictionary() {
    let d = build_type_dict(&vec![], &pre()).unwrap();
    assert_eq!(d.len(), 0);
}

#[test]
fn a_name_declared_twice_in_one_definition_fails() {
    let defs = vec![definition(Some("a"), vec![object("A", vec![]), object("A", vec![])])];
    assert_eq!(
        build_type_dict(&defs, &pre()).err(),
        Some(GenError::DuplicateTypeName("A".to_string()))
    );
}

#[test]
fn a_name_declared_in_two_definitions_fails() {
    let defs = vec![
        definition(Some("a"), vec![object("A", vec![])]),
        definition(
            Some("b"),
            vec![CustomType::Enum { name: "A".to_string(), values: vec![] }],
        ),
    ];
    assert_eq!(
        build_type_dict(&defs, &pre()).err(),
        Some(GenError::DuplicateTypeName("A".to_string()))
    );
}

#[test]
fn a_definition_without_package_fails() {
    let defs = vec![definition(Some("a"), vec![object("A", vec![])]), definition(None, vec![])];
    assert_eq!(build_type_dict(&defs, &pre()).err(), Some(GenError::MissingPackage));
}

#[test]
fn the_first_failure_is_reported() {
    let defs = vec![
        definition(None, vec![object("A", vec![]), object("A", vec![])]),
        definition(Some("a"), vec![]),
    ];
    assert_eq!(build_type_dict(&defs, &pre()).err(), Some(GenError::MissingPackage));
    let defs = vec![
        definition(Some("a"), vec![object("A", vec![]), object("A", vec![])]),
        definition(None, vec![]),
    ];
    assert_eq!(
        build_type_dict(&defs, &pre()).err(),
        Some(GenError::DuplicateTypeName("A".to_string()))
    );
}

#[test]
fn union_values_are_classified_by_declared_names() {
    let defs = vec![
        definition(
            Some("a"),
            vec![CustomType::ObjectEnum {
                name: "Shape".to_string(),
                type_tag: "kind".to_string(),
                values: vec!["Circle".to_string(), "Nothing".to_string(), "Color".to_string()],
                configs: Some(TypeConfig { object_enum_style: Some(ObjectEnumStyle::Extern) }),
            }],
        ),
        definition(
            Some("b"),
            vec![
                object("Circle", vec![field("r", "UInt32")]),
                object("Square", vec![]),
                CustomType::Enum { name: "Color".to_string(), values: vec![] },
            ],
        ),
    ];
    let d = build_type_dict(&defs, &pre()).unwrap();
    assert_eq!(
        d.get("Shape"),
        Some(&TypeInfo::ObjectEnum(ObjectEnumTypeInfo {
            package: "a".to_string(),
            name: "Shape".to_string(),
            type_tag: "kind".to_string(),
            values: vec![
                ObjectEnumValue::CustomType("Circle".to_string()),
                ObjectEnumValue::Simple("Nothing".to_string()),
                ObjectEnumValue::CustomType("Color".to_string()),
            ],
            configs: Some(TypeConfig { object_enum_style: Some(ObjectEnumStyle::Extern) }),
        }))
    );
    assert!(d.get("Circle").unwrap().is_object_enum_value());
    assert!(!d.get("Square").unwrap().is_object_enum_value());
    assert!(!d.get("Color").unwrap().is_object_enum_value());
}
