use fluorite_codegen::code_gen::abi::output::OutputTarget;
use fluorite_codegen::code_gen::abi::type_dict::TypeDict;
use fluorite_codegen::code_gen::abi::type_info::{
    EnumTypeInfo, ListTypeInfo, MapTypeInfo, ObjectEnumTypeInfo, ObjectEnumValue, ObjectField,
    ObjectTypeInfo, TypeInfo, TypeName,
};
use fluorite_codegen::code_gen::abi::{
    CodeGenContext, EnumWriter, ListWriter, MapWriter, ObjectEnumWriter, ObjectWriter,
    PackageWriter, PreProcessor,
};
use fluorite_codegen::code_gen::error::GenError;
use fluorite_codegen::code_gen::rust::context::RustContext;
use fluorite_codegen::code_gen::rust::options::RustOptions;
use fluorite_codegen::code_gen::rust::package_writer::RustPackageWriter;
use fluorite_codegen::code_gen::rust::pre_processor::RustPreProcessor;
use fluorite_codegen::code_gen::rust::type_writer::RustTypeWriter;
use fluorite_codegen::definitions::{
    FieldConfig, ObjectEnumStyle, RustTypeWrapper, SimpleType, TypeConfig,
};

fn simple(name: &str, t: SimpleType) -> ObjectField {
    ObjectField { name: name.to_string(), field_type: TypeName::Simple(t), config: None, optional: None }
}

fn custom(name: &str, t: &str) -> ObjectField {
    ObjectField {
        name: name.to_string(),
        field_type: TypeName::CustomType(t.to_string()),
        config: None,
        optional: None,
    }
}

fn object_info(package: &str, name: &str, fields: Vec<ObjectField>, payload: bool) -> ObjectTypeInfo {
    ObjectTypeInfo {
        package: package.to_string(),
        name: name.to_string(),
        fields,
        is_object_enum_value: payload,
    }
}

fn enum_info(package: &str, name: &str, values: &[&str]) -> EnumTypeInfo {
    EnumTypeInfo {
        package: package.to_string(),
        name: name.to_string(),
        values: values.iter().map(|v| v.to_string()).collect(),
    }
}

fn context_of(types: Vec<TypeInfo>, single_file: bool) -> RustContext {
    let mut d = TypeDict::new();
    for t in types {
        d.insert(t).unwrap();
    }
    let mut options = RustOptions::new("out".to_string());
    options.with_single_file(single_file);
    RustContext::new(d, options).ok().unwrap()
}

fn universe() -> Vec<TypeInfo> {
    vec![
        TypeInfo::Enum(enum_info("users", "Gender", &["Male", "Female"])),
        TypeInfo::Object(object_info(
            "users",
            "User",
            vec![simple("first_name", SimpleType::String), custom("gender", "Gender")],
            false,
        )),
        TypeInfo::Object(object_info("a.b.c", "Deep", vec![], false)),
        TypeInfo::Object(object_info("trees", "Node", vec![custom("next", "Node")], false)),
    ]
}

#[test]
fn options_default_to_a_single_file() {
    let options = RustOptions::new("dir".to_string());
    assert_eq!(options.output_dir, "dir");
    assert!(options.single_file);
}

#[test]
fn with_single_file_sets_the_flag_and_chains() {
    let mut options = RustOptions::new("dir".to_string());
    options.with_single_file(false);
    assert!(!options.single_file);
    assert_eq!(options.output_dir, "dir");
    let r = options.with_single_file(true).with_single_file(false).with_single_file(true);
    assert!(r.single_file);
    assert!(options.single_file);
    let copy = options.clone();
    assert_eq!(copy.output_dir, "dir");
    assert!(copy.single_file);
}

#[test]
fn file_name_of_a_type_is_in_snake_case() {
    let options = RustOptions::new("dir".to_string());
    assert_eq!(options.type_to_file_name("OrderItem"), "order_item");
}

#[test]
fn rust_spelling_of_each_primitive() {
    let options = RustOptions::new("dir".to_string());
    assert_eq!(options.get_simple_type(&SimpleType::String), "String");
    assert_eq!(options.get_simple_type(&SimpleType::Bool), "bool");
    assert_eq!(options.get_simple_type(&SimpleType::DateTime), "DateTime");
    assert_eq!(options.get_simple_type(&SimpleType::UInt32), "u32");
    assert_eq!(options.get_simple_type(&SimpleType::UInt64), "u64");
    assert_eq!(options.get_simple_type(&SimpleType::Int32), "i32");
    assert_eq!(options.get_simple_type(&SimpleType::Int64), "i64");
    assert_eq!(options.get_simple_type(&SimpleType::Float32), "f32");
    assert_eq!(options.get_simple_type(&SimpleType::Float64), "f64");
}

#[test]
fn context_fails_on_an_unresolved_reference() {
    let mut d = TypeDict::new();
    d.insert(TypeInfo::Object(object_info("p", "A", vec![custom("b", "B")], false))).unwrap();
    let r = RustContext::new(d, RustOptions::new("out".to_string()));
    assert_eq!(r.err(), Some(GenError::UnknownType("B".to_string())));
}

#[test]
fn context_fails_on_a_payload_that_is_no_object() {
    let mut d = TypeDict::new();
    d.insert(TypeInfo::Enum(enum_info("p", "E", &["X"]))).unwrap();
    d.insert(TypeInfo::ObjectEnum(ObjectEnumTypeInfo {
        package: "p".to_string(),
        name: "U".to_string(),
        type_tag: "type".to_string(),
        values: vec![
            ObjectEnumValue::Simple("Plain".to_string()),
            ObjectEnumValue::CustomType("E".to_string()),
        ],
        configs: None,
    }))
    .unwrap();
    let r = RustContext::new(d, RustOptions::new("out".to_string()));
    assert_eq!(r.err(), Some(GenError::NotAnObject("E".to_string())));
}

#[test]
fn pre_processor_makes_the_context() {
    let pre = RustPreProcessor { options: RustOptions::new("somewhere".to_string()) };
    let mut d = TypeDict::new();
    d.insert(TypeInfo::Enum(enum_info("p", "E", &["X"]))).unwrap();
    let context = pre.process(d).ok().unwrap();
    assert_eq!(context.options().output_dir, "somewhere");
    assert_eq!(context.type_dict().len(), 1);
    let mut bad = TypeDict::new();
    bad.insert(TypeInfo::Object(object_info("p", "A", vec![custom("b", "B")], false))).unwrap();
    assert_eq!(pre.process(bad).err(), Some(GenError::UnknownType("B".to_string())));
}

#[test]
fn qualified_names() {
    let context = context_of(universe(), true);
    assert_eq!(
        context.get_fully_qualified_type_name(&TypeName::Simple(SimpleType::UInt64)),
        Ok("u64".to_string())
    );
    assert_eq!(
        context.get_fully_qualified_type_name(&TypeName::CustomType("User".to_string())),
        Ok("crate::users::User".to_string())
    );
    assert_eq!(
        context.get_fully_qualified_type_name(&TypeName::CustomType("Deep".to_string())),
        Ok("crate::a::b::c::Deep".to_string())
    );
    assert_eq!(
        context.get_fully_qualified_type_name(&TypeName::CustomType("Missing".to_string())),
        Err(GenError::UnknownType("Missing".to_string()))
    );
    assert_eq!(context.get_fqn_for_type(context.type_dict().get("Gender").unwrap()), "crate::users::Gender");
}

#[test]
fn targets_for_a_single_file_per_package() {
    let context = context_of(universe(), true);
    let user = TypeInfo::Object(object_info("users", "UserName", vec![], false));
    assert_eq!(
        context.get_writer_for_type(&user),
        Ok(OutputTarget {
            directory: Some("out/users/".to_string()),
            path: "out/users//mod.rs".to_string(),
            append: true,
        })
    );
    assert_eq!(
        context.write_to_mod_file("users", false),
        OutputTarget {
            directory: Some("out/users/".to_string()),
            path: "out/users//mod.rs".to_string(),
            append: false,
        }
    );
}

#[test]
fn targets_for_a_file_per_type() {
    let context = context_of(universe(), false);
    let user = TypeInfo::Object(object_info("users", "UserName", vec![], false));
    let expected =
        OutputTarget { directory: None, path: "out/users/user_name.rs".to_string(), append: false };
    assert_eq!(context.get_writer_for_type(&user), Ok(expected.clone()));
    assert_eq!(context.write_to_type_file(&user), expected);
}

#[test]
fn type_descriptions_are_the_derives() {
    let context = context_of(universe(), true);
    assert_eq!(context.type_descriptions(), "#[derive(Debug, Clone, Serialize, Deserialize)]");
}

#[test]
fn plain_fields() {
    let context = context_of(universe(), true);
    let w = RustTypeWriter {};
    let owner = object_info("users", "User", vec![], false);
    assert_eq!(
        w.write_object_field(&simple("age", SimpleType::UInt32), &owner, &context),
        Ok("  pub age: u32,\n".to_string())
    );
    assert_eq!(
        w.write_object_field(&custom("gender", "Gender"), &owner, &context),
        Ok("  pub gender: crate::users::Gender,\n".to_string())
    );
    let payload = object_info("users", "User", vec![], true);
    assert_eq!(
        w.write_object_field(&simple("age", SimpleType::UInt32), &payload, &context),
        Ok("    age: u32,\n".to_string())
    );
    assert_eq!(
        w.write_object_field(&custom("x", "Missing"), &owner, &context),
        Err(GenError::UnknownType("Missing".to_string()))
    );
}

#[test]
fn optional_boxed_and_renamed_fields() {
    let context = context_of(universe(), true);
    let w = RustTypeWriter {};
    let owner = object_info("users", "User", vec![], false);
    let payload = object_info("users", "User", vec![], true);
    let mut f = simple("type", SimpleType::String);
    f.optional = Some(true);
    assert_eq!(w.write_object_field(&f, &owner, &context), Ok("  pub type: Option<String>,\n".to_string()));
    f.config = Some(FieldConfig { rename: None, rust_type_wrapper: Some(RustTypeWrapper::Box) });
    assert!(w.needs_indirection(&f, &owner, &context));
    assert_eq!(
        w.write_object_field(&f, &owner, &context),
        Ok("  pub type: Box<Option<String>>,\n".to_string())
    );
    f.config = Some(FieldConfig {
        rename: Some("kind".to_string()),
        rust_type_wrapper: Some(RustTypeWrapper::Box),
    });
    assert_eq!(
        w.write_object_field(&f, &owner, &context),
        Ok("  #[serde(rename = \"type\")]\n  pub kind: Box<Option<String>>,\n".to_string())
    );
    assert_eq!(
        w.write_object_field(&f, &payload, &context),
        Ok("    #[serde(rename = \"type\")]\n    kind: Box<Option<String>>,\n".to_string())
    );
    f.optional = None;
    f.config = Some(FieldConfig { rename: Some("kind".to_string()), rust_type_wrapper: None });
    assert!(!w.needs_indirection(&f, &owner, &context));
    assert_eq!(
        w.write_object_field(&f, &owner, &context),
        Ok("  #[serde(rename = \"type\")]\n  pub kind: String,\n".to_string())
    );
}

#[test]
fn a_field_on_a_cycle_is_boxed() {
    let context = context_of(universe(), true);
    let w = RustTypeWriter {};
    let node = object_info("trees", "Node", vec![custom("next", "Node")], false);
    assert!(w.needs_indirection(&node.fields[0], &node, &context));
    assert_eq!(
        w.write_object_field(&node.fields[0], &node, &context),
        Ok("  pub next: Box<crate::trees::Node>,\n".to_string())
    );
    assert_eq!(
        w.write_object(&node, &context),
        Ok("#[derive(Debug, Clone, Serialize, Deserialize)]\npub struct Node {\n  pub next: Box<crate::trees::Node>,\n}\n\n"
            .to_string())
    );
    let user = object_info("users", "User", vec![custom("node", "Node")], false);
    assert!(!w.needs_indirection(&user.fields[0], &user, &context));
    assert_eq!(
        w.write_object_field(&user.fields[0], &user, &context),
        Ok("  pub node: crate::trees::Node,\n".to_string())
    );
}

#[test]
fn indirection_does_not_depend_on_the_order_of_declaration() {
    let a = TypeInfo::Object(object_info("p", "A", vec![custom("b", "B")], false));
    let b = TypeInfo::Object(object_info("p", "B", vec![custom("a", "A")], false));
    let w = RustTypeWriter {};
    let owner = object_info("p", "A", vec![custom("b", "B")], false);
    let first = context_of(vec![a.clone_for_test(), b.clone_for_test()], true);
    let second = context_of(vec![b, a], true);
    assert_eq!(
        w.write_object_field(&owner.fields[0], &owner, &first),
        Ok("  pub b: Box<crate::p::B>,\n".to_string())
    );
    assert_eq!(
        w.write_object_field(&owner.fields[0], &owner, &second),
        Ok("  pub b: Box<crate::p::B>,\n".to_string())
    );
}

trait CloneForTest {
    fn clone_for_test(&self) -> TypeInfo;
}

impl CloneForTest for TypeInfo {
    fn clone_for_test(&self) -> TypeInfo {
        match self {
            TypeInfo::Object(o) => TypeInfo::Object(ObjectTypeInfo {
                package: o.package.clone(),
                name: o.name.clone(),
                fields: o
                    .fields
                    .iter()
                    .map(|f| ObjectField {
                        name: f.name.clone(),
                        field_type: f.field_type.clone(),
                        config: f.config.clone(),
                        optional: f.optional,
                    })
                    .collect(),
                is_object_enum_value: o.is_object_enum_value,
            }),
            _ => unreachable!(),
        }
    }
}

#[test]
fn objects_and_enums() {
    let context = context_of(universe(), true);
    let w = RustTypeWriter {};
    let user = object_info(
        "users",
        "User",
        vec![simple("first_name", SimpleType::String), custom("gender", "Gender")],
        false,
    );
    assert_eq!(
        w.write_object(&user, &context),
        Ok("#[derive(Debug, Clone, Serialize, Deserialize)]\npub struct User {\n  pub first_name: String,\n  pub gender: crate::users::Gender,\n}\n\n"
            .to_string())
    );
    assert_eq!(
        w.write_object(&object_info("users", "Empty", vec![], false), &context),
        Ok("#[derive(Debug, Clone, Serialize, Deserialize)]\npub struct Empty {\n}\n\n".to_string())
    );
    assert_eq!(
        w.write_object(&object_info("users", "Bad", vec![custom("x", "Missing")], false), &context),
        Err(GenError::UnknownType("Missing".to_string()))
    );
    assert_eq!(
        w.write_enum(&enum_info("users", "Gender", &["Male", "Female"]), &context),
        Ok("#[derive(Debug, Clone, Serialize, Deserialize)]\npub enum Gender {\n  Male,\n  Female,\n}\n\n"
            .to_string())
    );
    assert_eq!(
        w.write_enum(&enum_info("users", "Nothing", &[]), &context),
        Ok("#[derive(Debug, Clone, Serialize, Deserialize)]\npub enum Nothing {\n}\n\n".to_string())
    );
}

fn shapes(style: Option<ObjectEnumStyle>) -> (RustContext, ObjectEnumTypeInfo) {
    let union = ObjectEnumTypeInfo {
        package: "shapes".to_string(),
        name: "Shape".to_string(),
        type_tag: "kind".to_string(),
        values: vec![
            ObjectEnumValue::Simple("Point".to_string()),
            ObjectEnumValue::CustomType("Circle".to_string()),
        ],
        configs: style.map(|s| TypeConfig { object_enum_style: Some(s) }),
    };
    let copy = ObjectEnumTypeInfo {
        package: "shapes".to_string(),
        name: "Shape".to_string(),
        type_tag: "kind".to_string(),
        values: vec![
            ObjectEnumValue::Simple("Point".to_string()),
            ObjectEnumValue::CustomType("Circle".to_string()),
        ],
        configs: style.map(|s| TypeConfig { object_enum_style: Some(s) }),
    };
    let circle = object_info(
        "shapes.round",
        "Circle",
        vec![simple("radius", SimpleType::Float64), custom("inner", "Shape")],
        true,
    );
    (context_of(vec![TypeInfo::ObjectEnum(union), TypeInfo::Object(circle)], true), copy)
}

#[test]
fn tagged_union_inline() {
    let (context, union) = shapes(None);
    let w = RustTypeWriter {};
    let expected = "#[derive(Debug, Clone, Serialize, Deserialize)]\n#[serde(tag = \"kind\")]\npub enum Shape {\n  Point,\n  Circle {\n    radius: f64,\n    inner: Box<crate::shapes::Shape>,\n  },\n}\n";
    assert_eq!(w.write_object_enum(&union, &context), Ok(expected.to_string()));
    let (context, union) = shapes(Some(ObjectEnumStyle::Inline));
    assert_eq!(w.write_object_enum(&union, &context), Ok(expected.to_string()));
}

#[test]
fn tagged_union_extern() {
    let (context, union) = shapes(Some(ObjectEnumStyle::Extern));
    let w = RustTypeWriter {};
    let expected = "#[derive(Debug, Clone, Serialize, Deserialize)]\n#[serde(tag = \"kind\")]\npub enum Shape {\n  Point,\n  Circle(crate::shapes::round::Circle),\n}\n";
    assert_eq!(w.write_object_enum(&union, &context), Ok(expected.to_string()));
}

#[test]
fn tagged_union_with_a_payload_that_is_no_object() {
    let context = context_of(universe(), true);
    let w = RustTypeWriter {};
    let mut union = ObjectEnumTypeInfo {
        package: "p".to_string(),
        name: "U".to_string(),
        type_tag: "type".to_string(),
        values: vec![ObjectEnumValue::CustomType("Gender".to_string())],
        configs: None,
    };
    assert_eq!(
        w.write_object_enum(&union, &context),
        Err(GenError::NotAnObject("Gender".to_string()))
    );
    union.configs = Some(TypeConfig { object_enum_style: Some(ObjectEnumStyle::Extern) });
    assert_eq!(
        w.write_object_enum(&union, &context),
        Err(GenError::NotAnObject("Gender".to_string()))
    );
    union.values = vec![ObjectEnumValue::CustomType("Missing".to_string())];
    assert_eq!(
        w.write_object_enum(&union, &context),
        Err(GenError::NotAnObject("Missing".to_string()))
    );
}

#[test]
fn lists_and_maps() {
    let context = context_of(universe(), true);
    let w = RustTypeWriter {};
    let list = ListTypeInfo {
        package: "users".to_string(),
        name: "Users".to_string(),
        item_type: TypeName::CustomType("User".to_string()),
    };
    assert_eq!(
        w.write_list(&list, &context),
        Ok("pub type Users = Vec<crate::users::User>;\n\n".to_string())
    );
    let bad = ListTypeInfo {
        package: "users".to_string(),
        name: "Users".to_string(),
        item_type: TypeName::CustomType("Missing".to_string()),
    };
    assert_eq!(w.write_list(&bad, &context), Err(GenError::UnknownType("Missing".to_string())));
    let map = MapTypeInfo {
        package: "users".to_string(),
        name: "ById".to_string(),
        key_type: TypeName::Simple(SimpleType::String),
        value_type: TypeName::CustomType("User".to_string()),
    };
    assert_eq!(
        w.write_map(&map, &context),
        Ok("use std::collections::HashMap;\n\npub type ById = HashMap<String, crate::users::User>;\n\n"
            .to_string())
    );
    let bad = MapTypeInfo {
        package: "users".to_string(),
        name: "ById".to_string(),
        key_type: TypeName::CustomType("NoKey".to_string()),
        value_type: TypeName::CustomType("NoValue".to_string()),
    };
    assert_eq!(w.write_map(&bad, &context), Err(GenError::UnknownType("NoValue".to_string())));
}

#[test]
fn package_file_for_a_file_per_type() {
    let context = context_of(universe(), false);
    let types = universe();
    let payload = TypeInfo::Object(object_info("users", "Hidden", vec![], true));
    let members: Vec<&TypeInfo> = vec![&types[0], &payload, &types[1]];
    let r = RustPackageWriter {}.write_package("users", &members, &context).ok().unwrap();
    assert_eq!(
        r.target,
        OutputTarget {
            directory: Some("out/users/".to_string()),
            path: "out/users//mod.rs".to_string(),
            append: false,
        }
    );
    assert_eq!(
        r.text,
        "mod gender;\npub use crate::users::gender::*;\nmod user;\npub use crate::users::user::*;\n"
    );
}

#[test]
fn package_file_for_a_single_file_starts_empty() {
    let context = context_of(universe(), true);
    let types = universe();
    let members: Vec<&TypeInfo> = vec![&types[0], &types[1]];
    let r = RustPackageWriter {}.write_package("users", &members, &context).ok().unwrap();
    assert_eq!(r.text, "");
    assert!(!r.target.append);
}

#[test]
fn error_messages() {
    assert_eq!(GenError::DuplicateTypeName("A".to_string()).message(), "Duplicate type name: A");
    assert_eq!(GenError::MissingPackage.message(), "cannot find package info from definition");
    assert_eq!(GenError::UnknownType("A".to_string()).message(), "Cannot find custom type: A");
    assert_eq!(
        GenError::NotAnObject("A".to_string()).message(),
        "Enum cannot be nested within enum object: A"
    );
    assert_eq!(GenError::Writer("sink closed".to_string()).message(), "sink closed");
    let e = GenError::UnknownType("A".to_string());
    assert_eq!(e.clone(), e);
}
