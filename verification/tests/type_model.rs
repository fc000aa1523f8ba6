use fluorite_codegen::code_gen::abi::type_info::{
    EnumTypeInfo, ListTypeInfo, MapTypeInfo, ObjectEnumTypeInfo, ObjectEnumValue, ObjectField,
    ObjectTypeInfo, TypeInfo, TypeName,
};
use fluorite_codegen::code_gen::utils::{push_snake_case, to_snake_case};
use fluorite_codegen::definitions::{
    CustomType, Field, FieldConfig, RustTypeWrapper, SimpleType,
};

fn object(name: &str, fields: Vec<ObjectField>) -> TypeInfo {
    TypeInfo::Object(ObjectTypeInfo {
        package: "p".to_string(),
        name: name.to_string(),
        fields,
        is_object_enum_value: false,
    })
}

fn object_field(name: &str, field_type: TypeName) -> ObjectField {
    ObjectField { name: name.to_string(), field_type, config: None, optional: None }
}

#[test]
fn all_values_lists_the_nine_primitives_in_order() {
    assert_eq!(
        SimpleType::all_values(),
        vec![
            SimpleType::String,
            SimpleType::Bool,
            SimpleType::DateTime,
            SimpleType::UInt32,
            SimpleType::UInt64,
            SimpleType::Int32,
            SimpleType::Int64,
            SimpleType::Float32,
            SimpleType::Float64,
        ]
    );
}

#[test]
fn primitive_names_are_canonical() {
    assert_eq!(SimpleType::String.to_string(), "String");
    assert_eq!(SimpleType::Bool.to_string(), "Bool");
    assert_eq!(SimpleType::DateTime.to_string(), "DateTime");
    assert_eq!(SimpleType::UInt32.to_string(), "UInt32");
    assert_eq!(SimpleType::UInt64.to_string(), "UInt64");
    assert_eq!(SimpleType::Int32.to_string(), "Int32");
    assert_eq!(SimpleType::Int64.to_string(), "Int64");
    assert_eq!(SimpleType::Float32.to_string(), "Float32");
    assert_eq!(SimpleType::Float64.to_string(), "Float64");
}

#[test]
fn token_of_a_primitive_is_simple() {
    for t in SimpleType::all_values() {
        assert_eq!(TypeName::from_str(t.to_string().as_str()), TypeName::Simple(t));
    }
}

#[test]
fn other_tokens_are_custom_types() {
    assert_eq!(TypeName::from_str("User"), TypeName::CustomType("User".to_string()));
    assert_eq!(TypeName::from_str("string"), TypeName::CustomType("string".to_string()));
    assert_eq!(TypeName::from_str(""), TypeName::CustomType("".to_string()));
    assert_eq!(TypeName::from_str("Int3"), TypeName::CustomType("Int3".to_string()));
}

#[test]
fn is_custom_type_tells_the_two_apart() {
    assert!(!TypeName::Simple(SimpleType::Bool).is_custom_type());
    assert!(TypeName::CustomType("Bool2".to_string()).is_custom_type());
}

#[test]
fn object_field_from_field_resolves_the_token() {
    let config = FieldConfig {
        rename: Some("kind".to_string()),
        rust_type_wrapper: Some(RustTypeWrapper::Box),
    };
    let f = Field {
        name: "type".to_string(),
        field_type: "Kind".to_string(),
        optional: Some(true),
        configs: Some(config.clone()),
    };
    let r = ObjectField::from(&f);
    assert_eq!(r.name, "type");
    assert_eq!(r.field_type, TypeName::CustomType("Kind".to_string()));
    assert_eq!(r.optional, Some(true));
    assert_eq!(r.config, Some(config));
    let g = Field {
        name: "age".to_string(),
        field_type: "UInt32".to_string(),
        optional: None,
        configs: None,
    };
    assert_eq!(ObjectField::from(&g).field_type, TypeName::Simple(SimpleType::UInt32));
}

#[test]
fn is_optional_only_for_some_true() {
    let mut f = object_field("a", TypeName::Simple(SimpleType::Bool));
    assert!(!f.is_optional());
    f.optional = Some(false);
    assert!(!f.is_optional());
    f.optional = Some(true);
    assert!(f.is_optional());
}

#[test]
fn referenced_types_of_an_object_are_its_custom_field_types() {
    let t = object(
        "A",
        vec![
            object_field("x", TypeName::CustomType("B".to_string())),
            object_field("y", TypeName::Simple(SimpleType::Int64)),
            object_field("z", TypeName::CustomType("C".to_string())),
            object_field("w", TypeName::CustomType("B".to_string())),
        ],
    );
    assert_eq!(t.get_referrenced_types(), vec!["B".to_string(), "C".to_string(), "B".to_string()]);
}

#[test]
fn referenced_types_of_the_other_kinds() {
    let e = TypeInfo::Enum(EnumTypeInfo {
        package: "p".to_string(),
        name: "E".to_string(),
        values: vec!["A".to_string()],
    });
    assert_eq!(e.get_referrenced_types(), Vec::<String>::new());
    let u = TypeInfo::ObjectEnum(ObjectEnumTypeInfo {
        package: "p".to_string(),
        name: "U".to_string(),
        type_tag: "type".to_string(),
        values: vec![
            ObjectEnumValue::Simple("None".to_string()),
            ObjectEnumValue::CustomType("A".to_string()),
            ObjectEnumValue::CustomType("B".to_string()),
        ],
        configs: None,
    });
    assert_eq!(u.get_referrenced_types(), vec!["A".to_string(), "B".to_string()]);
    let l = TypeInfo::List(ListTypeInfo {
        package: "p".to_string(),
        name: "L".to_string(),
        item_type: TypeName::CustomType("A".to_string()),
    });
    assert_eq!(l.get_referrenced_types(), vec!["A".to_string()]);
    let l2 = TypeInfo::List(ListTypeInfo {
        package: "p".to_string(),
        name: "L".to_string(),
        item_type: TypeName::Simple(SimpleType::String),
    });
    assert_eq!(l2.get_referrenced_types(), Vec::<String>::new());
    let m = TypeInfo::Mapping(MapTypeInfo {
        package: "p".to_string(),
        name: "M".to_string(),
        key_type: TypeName::Simple(SimpleType::String),
        value_type: TypeName::CustomType("V".to_string()),
    });
    assert_eq!(m.get_referrenced_types(), vec!["V".to_string()]);
    let m2 = TypeInfo::Mapping(MapTypeInfo {
        package: "p".to_string(),
        name: "M".to_string(),
        key_type: TypeName::CustomType("K".to_string()),
        value_type: TypeName::CustomType("V".to_string()),
    });
    assert_eq!(m2.get_referrenced_types(), vec!["K".to_string(), "V".to_string()]);
}

#[test]
fn get_custom_types_keeps_order_and_drops_primitives() {
    let a = TypeName::CustomType("A".to_string());
    let s = TypeName::Simple(SimpleType::String);
    let b = TypeName::CustomType("B".to_string());
    assert_eq!(TypeInfo::get_custom_types(vec![&a, &s, &b]), vec!["A".to_string(), "B".to_string()]);
    assert_eq!(TypeInfo::get_custom_types(vec![]), Vec::<String>::new());
}

#[test]
fn name_and_package_of_each_kind() {
    let l = TypeInfo::List(ListTypeInfo {
        package: "a.b".to_string(),
        name: "L".to_string(),
        item_type: TypeName::Simple(SimpleType::String),
    });
    assert_eq!(l.name(), "L");
    assert_eq!(l.package(), "a.b");
    let o = object("O", vec![]);
    assert_eq!(o.name(), "O");
    assert_eq!(o.package(), "p");
    assert!(!o.is_object_enum_value());
    assert!(!l.is_object_enum_value());
    let p = TypeInfo::Object(ObjectTypeInfo {
        package: "p".to_string(),
        name: "P".to_string(),
        fields: vec![],
        is_object_enum_value: true,
    });
    assert!(p.is_object_enum_value());
}

#[test]
fn custom_type_name_of_each_kind() {
    let name = "N".to_string();
    assert_eq!(CustomType::Object { name: name.clone(), fields: vec![] }.name(), "N");
    assert_eq!(CustomType::Enum { name: name.clone(), values: vec![] }.name(), "N");
    assert_eq!(
        CustomType::ObjectEnum {
            name: name.clone(),
            type_tag: "t".to_string(),
            values: vec![],
            configs: None
        }
        .name(),
        "N"
    );
    assert_eq!(CustomType::List { name: name.clone(), item_type: "String".to_string() }.name(), "N");
    assert_eq!(
        CustomType::Mapping {
            name: name.clone(),
            key_type: "String".to_string(),
            value_type: "String".to_string()
        }
        .name(),
        "N"
    );
}

#[test]
fn snake_case_of_names() {
    assert_eq!(to_snake_case("User"), "user");
    assert_eq!(to_snake_case("UserName"), "user_name");
    assert_eq!(to_snake_case("userID"), "user_id");
    assert_eq!(to_snake_case("ABC"), "a_bc");
    assert_eq!(to_snake_case(""), "");
    assert_eq!(to_snake_case("already_snake"), "already_snake");
    assert_eq!(to_snake_case("X"), "x");
    assert_eq!(to_snake_case("OrderItem2"), "order_item2");
}

#[test]
fn snake_case_step_by_step() {
    let mut out = String::new();
    push_snake_case(&mut out, true, "a", false);
    assert_eq!(out, "a");
    push_snake_case(&mut out, true, "b", false);
    assert_eq!(out, "a_b");
    push_snake_case(&mut out, false, "c", false);
    assert_eq!(out, "a_bc");
    push_snake_case(&mut out, true, "d", true);
    assert_eq!(out, "a_bcd");
}

#[test]
fn clones_are_equal() {
    let f = Field {
        name: "a".to_string(),
        field_type: "B".to_string(),
        optional: Some(false),
        configs: Some(FieldConfig { rename: None, rust_type_wrapper: None }),
    };
    assert_eq!(f.clone(), f);
    let t = CustomType::Object { name: "T".to_string(), fields: vec![f] };
    assert_eq!(t.clone(), t);
    let n = TypeName::CustomType("T".to_string());
    assert_eq!(n.clone(), n);
}
