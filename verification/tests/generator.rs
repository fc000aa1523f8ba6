use fluorite_codegen::code_gen::abi::output::{Emission, EmissionView, OutputTarget, OutputTargetView};
use fluorite_codegen::code_gen::abi::type_dict::TypeDict;
use fluorite_codegen::code_gen::abi::type_info::{
    EnumTypeInfo, EnumTypeInfoView, ListTypeInfo, ListTypeInfoView, MapTypeInfo, MapTypeInfoView,
    ObjectEnumTypeInfo, ObjectEnumTypeInfoView, ObjectTypeInfo, ObjectTypeInfoView, TypeInfo,
    TypeInfoView,
};
use fluorite_codegen::code_gen::abi::{
    CodeGenContext, CodeGenProvider, EnumWriter, ListWriter, MapWriter, ObjectEnumWriter,
    ObjectWriter, PackageWriter, PreProcessor,
};
use fluorite_codegen::code_gen::error::{GenError, GenErrorView};
use fluorite_codegen::code_gen::generator::CodeGenerator;
use fluorite_codegen::code_gen::rust::context::RustContext;
use fluorite_codegen::code_gen::rust::cycle_groups::CycleGroups;
use fluorite_codegen::code_gen::rust::options::RustOptions;
use fluorite_codegen::code_gen::rust::pre_processor::RustPreProcessor;
use fluorite_codegen::code_gen::rust::RustProvider;
use fluorite_codegen::code_gen::ts::{TsOptions, TsProvider};
use fluorite_codegen::code_gen::utils::build_type_dict;
use fluorite_codegen::definitions::{
    CustomType, Definition, DefinitionConfig, DefinitionView, Field, FieldConfig, ObjectEnumStyle,
    RustTypeWrapper, TypeConfig,
};
use vstd::seq::Seq;
use vstd::view::View;
use fluorite_codegen::utils::compile;

fn field(name: &str, field_type: &str) -> Field {
    Field { name: name.to_string(), field_type: field_type.to_string(), optional: None, configs: None }
}

fn definition(package: Option<&str>, types: Vec<CustomType>) -> Definition {
    Definition { types, configs: DefinitionConfig { rust_package: package.map(|p| p.to_string()) } }
}

fn users() -> Definition {
    definition(
        Some("users"),
        vec![
            CustomType::Enum {
                name: "Gender".to_string(),
                values: vec!["Male".to_string(), "Female".to_string()],
            },
            CustomType::Object {
                name: "User".to_string(),
                fields: vec![field("first_name", "String"), field("gender", "Gender")],
            },
        ],
    )
}

fn orders() -> Definition {
    definition(
        Some("orders"),
        vec![
            CustomType::Object {
                name: "OrderItem".to_string(),
                fields: vec![
                    field("name", "String"),
                    Field {
                        name: "count".to_string(),
                        field_type: "UInt32".to_string(),
                        optional: Some(true),
                        configs: None,
                    },
                ],
            },
            CustomType::List { name: "OrderItems".to_string(), item_type: "OrderItem".to_string() },
            CustomType::Object {
                name: "Order".to_string(),
                fields: vec![
                    field("buyer", "User"),
                    field("items", "OrderItems"),
                    Field {
                        name: "type".to_string(),
                        field_type: "Payment".to_string(),
                        optional: None,
                        configs: Some(FieldConfig {
                            rename: Some("payment".to_string()),
                            rust_type_wrapper: Some(RustTypeWrapper::Box),
                        }),
                    },
                ],
            },
            CustomType::ObjectEnum {
                name: "Payment".to_string(),
                type_tag: "type".to_string(),
                values: vec!["Cash".to_string(), "Card".to_string()],
                configs: Some(TypeConfig { object_enum_style: Some(ObjectEnumStyle::Inline) }),
            },
            CustomType::Object { name: "Card".to_string(), fields: vec![field("number", "String")] },
            CustomType::Mapping {
                name: "OrdersById".to_string(),
                key_type: "UInt64".to_string(),
                value_type: "Order".to_string(),
            },
        ],
    )
}

fn rust_generator(single_file: bool) -> CodeGenerator<RustContext, RustProvider> {
    let mut options = RustOptions::new("out".to_string());
    options.with_single_file(single_file);
    CodeGenerator::new(RustProvider::new(options))
}

const DERIVES: &str = "#[derive(Debug, Clone, Serialize, Deserialize)]\n";

#[test]
fn test_rust_code_gen() {
    let d1 = users();
    let d2 = orders();
    let output_dir = "/tmp/test1";
    let options = RustOptions::new(output_dir.to_owned());
    let config = RustProvider::new(options);

    let generator = CodeGenerator::new(config);
    let out = generator.generate(&vec![d1, d2]).unwrap();
    assert_eq!(out.len(), 9);
    assert_eq!(out[0].target.path, "/tmp/test1/users//mod.rs");
    assert_eq!(out[3].target.path, "/tmp/test1/orders//mod.rs");
}

#[test]
fn users_end_to_end() {
    let defs = vec![users()];
    let dict =
        build_type_dict(&defs, &RustPreProcessor { options: RustOptions::new("out".to_string()) })
            .unwrap();
    assert_eq!(dict.len(), 2);
    let groups = CycleGroups::analyze(&dict).ok().unwrap();
    assert_eq!(groups.group_id(0), None);
    assert_eq!(groups.group_id(1), None);

    let out = rust_generator(true).generate(&defs).unwrap();
    let mod_file = OutputTarget {
        directory: Some("out/users/".to_string()),
        path: "out/users//mod.rs".to_string(),
        append: true,
    };
    assert_eq!(
        out,
        vec![
            Emission {
                target: OutputTarget {
                    directory: Some("out/users/".to_string()),
                    path: "out/users//mod.rs".to_string(),
                    append: false,
                },
                text: "".to_string(),
            },
            Emission {
                target: mod_file.clone(),
                text: format!("{}pub enum Gender {{\n  Male,\n  Female,\n}}\n\n", DERIVES),
            },
            Emission {
                target: mod_file,
                text: format!(
                    "{}pub struct User {{\n  pub first_name: String,\n  pub gender: crate::users::Gender,\n}}\n\n",
                    DERIVES
                ),
            },
        ]
    );
}

#[test]
fn users_with_a_file_per_type() {
    let out = rust_generator(false).generate(&vec![users()]).unwrap();
    assert_eq!(out.len(), 3);
    assert_eq!(
        out[0].text,
        "mod gender;\npub use crate::users::gender::*;\nmod user;\npub use crate::users::user::*;\n"
    );
    assert_eq!(
        out[1].target,
        OutputTarget { directory: None, path: "out/users/gender.rs".to_string(), append: false }
    );
    assert_eq!(
        out[2].target,
        OutputTarget { directory: None, path: "out/users/user.rs".to_string(), append: false }
    );
}

#[test]
fn a_self_referencing_node() {
    let defs = vec![definition(
        Some("lists"),
        vec![CustomType::Object { name: "Node".to_string(), fields: vec![field("next", "Node")] }],
    )];
    let dict =
        build_type_dict(&defs, &RustPreProcessor { options: RustOptions::new("out".to_string()) })
            .unwrap();
    let groups = CycleGroups::analyze(&dict).ok().unwrap();
    assert_eq!(groups.group_id(0), Some(1));
    let out = rust_generator(true).generate(&defs).unwrap();
    assert_eq!(out.len(), 2);
    assert_eq!(
        out[1].text,
        format!("{}pub struct Node {{\n  pub next: Box<crate::lists::Node>,\n}}\n\n", DERIVES)
    );
}

#[test]
fn payloads_are_not_emitted_alone() {
    let out = rust_generator(false).generate(&vec![users(), orders()]).unwrap();
    let paths: Vec<&str> = out.iter().map(|e| e.target.path.as_str()).collect();
    assert_eq!(
        paths,
        vec![
            "out/users//mod.rs",
            "out/users/gender.rs",
            "out/users/user.rs",
            "out/orders//mod.rs",
            "out/orders/order_item.rs",
            "out/orders/order_items.rs",
            "out/orders/order.rs",
            "out/orders/payment.rs",
            "out/orders/orders_by_id.rs",
        ]
    );
    assert_eq!(
        out[3].text,
        "mod order_item;\npub use crate::orders::order_item::*;\nmod order_items;\npub use crate::orders::order_items::*;\nmod order;\npub use crate::orders::order::*;\nmod payment;\npub use crate::orders::payment::*;\nmod orders_by_id;\npub use crate::orders::orders_by_id::*;\n"
    );
    assert_eq!(
        out[4].text,
        format!("{}pub struct OrderItem {{\n  pub name: String,\n  pub count: Option<u32>,\n}}\n\n", DERIVES)
    );
    assert_eq!(out[5].text, "pub type OrderItems = Vec<crate::orders::OrderItem>;\n\n");
    assert_eq!(
        out[6].text,
        format!(
            "{}pub struct Order {{\n  pub buyer: crate::users::User,\n  pub items: crate::orders::OrderItems,\n  #[serde(rename = \"type\")]\n  pub payment: Box<crate::orders::Payment>,\n}}\n\n",
            DERIVES
        )
    );
    assert_eq!(
        out[7].text,
        format!(
            "{}#[serde(tag = \"type\")]\npub enum Payment {{\n  Cash,\n  Card {{\n    number: String,\n  }},\n}}\n",
            DERIVES
        )
    );
    assert_eq!(
        out[8].text,
        "use std::collections::HashMap;\n\npub type OrdersById = HashMap<u64, crate::orders::Order>;\n\n"
    );
}

#[test]
fn packages_come_in_the_order_of_their_first_type() {
    let defs = vec![
        definition(Some("a"), vec![CustomType::Enum { name: "A1".to_string(), values: vec![] }]),
        definition(Some("b"), vec![CustomType::Enum { name: "B1".to_string(), values: vec![] }]),
        definition(Some("a"), vec![CustomType::Enum { name: "A2".to_string(), values: vec![] }]),
    ];
    let out = rust_generator(false).generate(&defs).unwrap();
    let paths: Vec<&str> = out.iter().map(|e| e.target.path.as_str()).collect();
    assert_eq!(
        paths,
        vec!["out/a//mod.rs", "out/a/a1.rs", "out/a/a2.rs", "out/b//mod.rs", "out/b/b1.rs"]
    );
}

#[test]
fn no_definitions_emit_nothing() {
    assert_eq!(rust_generator(true).generate(&vec![]), Ok(vec![]));
}

#[test]
fn a_run_fails_as_a_whole() {
    let g = rust_generator(true);
    assert_eq!(
        g.generate(&vec![users(), users()]),
        Err(GenError::DuplicateTypeName("Gender".to_string()))
    );
    assert_eq!(g.generate(&vec![definition(None, vec![])]), Err(GenError::MissingPackage));
    let dangling = definition(
        Some("p"),
        vec![
            CustomType::Enum { name: "Fine".to_string(), values: vec![] },
            CustomType::Object { name: "A".to_string(), fields: vec![field("b", "Nowhere")] },
        ],
    );
    assert_eq!(g.generate(&vec![dangling]), Err(GenError::UnknownType("Nowhere".to_string())));
    let nested = definition(
        Some("p"),
        vec![
            CustomType::Enum { name: "Inner".to_string(), values: vec![] },
            CustomType::ObjectEnum {
                name: "Outer".to_string(),
                type_tag: "t".to_string(),
                values: vec!["Inner".to_string()],
                configs: None,
            },
        ],
    );
    assert_eq!(g.generate(&vec![nested]), Err(GenError::NotAnObject("Inner".to_string())));
}

#[test]
fn compile_uses_the_default_options() {
    let out = compile(&vec![users()], "gen").unwrap();
    assert_eq!(out.len(), 3);
    assert_eq!(out[0].target.path, "gen/users//mod.rs");
    assert!(!out[0].target.append);
    assert!(out[1].target.append);
    assert_eq!(compile(&vec![users(), users()], "gen").err(), Some(GenError::DuplicateTypeName("Gender".to_string())));
}

#[test]
fn ts_provider_is_made_of_its_options() {
    let _provider = TsProvider::new(TsOptions {});
}

struct Notes {
    types: TypeDict,
}

impl View for Notes {
    type V = ();

    fn view(&self) -> () {
        unreachable!()
    }
}

impl CodeGenContext for Notes {
    fn types(_: ()) -> Seq<TypeInfoView> {
        unreachable!()
    }

    fn target(_: (), _: TypeInfoView) -> Result<OutputTargetView, GenErrorView> {
        unreachable!()
    }

    fn type_dict(&self) -> &TypeDict {
        &self.types
    }

    fn get_writer_for_type(&self, type_info: &TypeInfo) -> Result<OutputTarget, GenError> {
        if type_info.name() == "Locked" {
            return Err(GenError::Writer("sink unavailable".to_string()));
        }
        Ok(OutputTarget { directory: None, path: type_info.name().to_string(), append: false })
    }
}

struct NotesPre {}

impl PreProcessor<Notes> for NotesPre {
    fn context_of(&self, _: Seq<TypeInfoView>) -> Result<(), GenErrorView> {
        unreachable!()
    }

    fn package_name(&self, _: DefinitionView) -> Result<Seq<char>, GenErrorView> {
        unreachable!()
    }

    fn process(&self, types_dict: TypeDict) -> Result<Box<Notes>, GenError> {
        Ok(Box::new(Notes { types: types_dict }))
    }

    fn get_package_name(&self, definition: &Definition) -> Result<String, GenError> {
        Ok(format!("pkg{}", definition.types.len()))
    }
}

struct Kind {}

impl ObjectWriter<Notes> for Kind {
    fn object_text(&self, _: ObjectTypeInfoView, _: ()) -> Result<Seq<char>, GenErrorView> {
        unreachable!()
    }

    fn write_object(&self, type_info: &ObjectTypeInfo, _context: &Notes) -> Result<String, GenError> {
        Ok(format!("object {}", type_info.name))
    }
}

impl EnumWriter<Notes> for Kind {
    fn enum_text(&self, _: EnumTypeInfoView, _: ()) -> Result<Seq<char>, GenErrorView> {
        unreachable!()
    }

    fn write_enum(&self, type_info: &EnumTypeInfo, _context: &Notes) -> Result<String, GenError> {
        if type_info.values.is_empty() {
            return Err(GenError::Writer(format!("{} is empty", type_info.name)));
        }
        Ok(format!("enum {}", type_info.name))
    }
}

impl ObjectEnumWriter<Notes> for Kind {
    fn object_enum_text(&self, _: ObjectEnumTypeInfoView, _: ()) -> Result<Seq<char>, GenErrorView> {
        unreachable!()
    }

    fn write_object_enum(&self, type_info: &ObjectEnumTypeInfo, _context: &Notes) -> Result<String, GenError> {
        Ok(format!("union {}", type_info.name))
    }
}

impl ListWriter<Notes> for Kind {
    fn list_text(&self, _: ListTypeInfoView, _: ()) -> Result<Seq<char>, GenErrorView> {
        unreachable!()
    }

    fn write_list(&self, type_info: &ListTypeInfo, _context: &Notes) -> Result<String, GenError> {
        Ok(format!("list {}", type_info.name))
    }
}

impl MapWriter<Notes> for Kind {
    fn map_text(&self, _: MapTypeInfoView, _: ()) -> Result<Seq<char>, GenErrorView> {
        unreachable!()
    }

    fn write_map(&self, type_info: &MapTypeInfo, _context: &Notes) -> Result<String, GenError> {
        Ok(format!("map {}", type_info.name))
    }
}

struct NoPackage {}

impl PackageWriter<Notes> for NoPackage {
    fn package_output(&self, _: Seq<char>, _: Seq<TypeInfoView>, _: ()) -> Result<EmissionView, GenErrorView> {
        unreachable!()
    }

    fn write_package(&self, _package: &str, _types: &Vec<&TypeInfo>, _context: &Notes) -> Result<Emission, GenError> {
        unreachable!()
    }
}

struct NotesProvider {}

impl CodeGenProvider<Notes> for NotesProvider {
    type Pre = NotesPre;
    type Package = NoPackage;
    type Object = Kind;
    type Enum = Kind;
    type ObjectEnum = Kind;
    type List = Kind;
    type Mapping = Kind;

    fn pre_processor(&self) -> NotesPre {
        unreachable!()
    }

    fn package_writer(&self) -> Option<NoPackage> {
        unreachable!()
    }

    fn object_writer(&self) -> Kind {
        unreachable!()
    }

    fn enum_writer(&self) -> Kind {
        unreachable!()
    }

    fn object_enum_writer(&self) -> Kind {
        unreachable!()
    }

    fn list_writer(&self) -> Kind {
        unreachable!()
    }

    fn map_writer(&self) -> Kind {
        unreachable!()
    }

    fn get_pre_processor(&self) -> NotesPre {
        NotesPre {}
    }

    fn get_package_writer(&self) -> Option<NoPackage> {
        None
    }

    fn get_object_writer(&self) -> Kind {
        Kind {}
    }

    fn get_enum_writer(&self) -> Kind {
        Kind {}
    }

    fn get_object_enum_writer(&self) -> Kind {
        Kind {}
    }

    fn get_list_writer(&self) -> Kind {
        Kind {}
    }

    fn get_map_writer(&self) -> Kind {
        Kind {}
    }
}

fn notes(defs: &Vec<Definition>) -> Result<Vec<String>, GenError> {
    let generator: CodeGenerator<Notes, NotesProvider> = CodeGenerator::new(NotesProvider {});
    generator.generate(defs).map(|out| out.into_iter().map(|e| format!("{}: {}", e.target.path, e.text)).collect())
}

#[test]
fn each_type_goes_to_the_writer_of_its_kind() {
    let r = notes(&vec![users(), orders()]).unwrap();
    assert_eq!(
        r,
        vec![
            "Gender: enum Gender",
            "User: object User",
            "OrderItem: object OrderItem",
            "OrderItems: list OrderItems",
            "Order: object Order",
            "Payment: union Payment",
            "OrdersById: map OrdersById",
        ]
    );
}

#[test]
fn a_failing_writer_aborts_the_run() {
    let defs = vec![definition(
        None,
        vec![
            CustomType::Enum { name: "Fine".to_string(), values: vec!["A".to_string()] },
            CustomType::Enum { name: "Hollow".to_string(), values: vec![] },
            CustomType::Enum { name: "Never".to_string(), values: vec!["A".to_string()] },
        ],
    )];
    assert_eq!(notes(&defs), Err(GenError::Writer("Hollow is empty".to_string())));
}

#[test]
fn a_failing_sink_aborts_the_run() {
    let defs = vec![definition(
        None,
        vec![CustomType::Enum { name: "Locked".to_string(), values: vec![] }],
    )];
    assert_eq!(notes(&defs), Err(GenError::Writer("sink unavailable".to_string())));
}
