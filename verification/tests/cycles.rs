use fluorite_codegen::code_gen::abi::type_dict::TypeDict;
use fluorite_codegen::code_gen::abi::type_info::{
    EnumTypeInfo, ListTypeInfo, MapTypeInfo, ObjectEnumTypeInfo, ObjectEnumValue, ObjectField,
    ObjectTypeInfo, TypeInfo, TypeName,
};
use fluorite_codegen::code_gen::error::GenError;
use fluorite_codegen::code_gen::rust::context::RustContext;
use fluorite_codegen::code_gen::rust::cycle_groups::CycleGroups;
use fluorite_codegen::code_gen::rust::options::RustOptions;
use fluorite_codegen::code_gen::rust::type_graph::{NodeInfo, TypeGraph};
use fluorite_codegen::definitions::SimpleType;

fn object(name: &str, refs: &[&str]) -> TypeInfo {
    TypeInfo::Object(ObjectTypeInfo {
        package: "p".to_string(),
        name: name.to_string(),
        fields: refs
            .iter()
            .map(|r| ObjectField {
                name: r.to_lowercase(),
                field_type: TypeName::CustomType(r.to_string()),
                config: None,
                optional: None,
            })
            .collect(),
        is_object_enum_value: false,
    })
}

fn dict(types: Vec<TypeInfo>) -> TypeDict {
    let mut d = TypeDict::new();
    for t in types {
        d.insert(t).unwrap();
    }
    d
}

fn ids(types: Vec<TypeInfo>) -> Vec<Option<u64>> {
    let d = dict(types);
    let groups = CycleGroups::analyze(&d).ok().unwrap();
    (0..d.len()).map(|i| groups.group_id(i)).collect()
}

fn sorted(mut groups: Vec<Vec<usize>>) -> Vec<Vec<usize>> {
    for g in groups.iter_mut() {
        g.sort();
    }
    groups.sort();
    groups
}

#[test]
fn empty_node_info() {
    let n = NodeInfo::empty();
    assert_eq!(n.index, 0);
    assert_eq!(n.low_link, 0);
}

#[test]
fn mutual_reference_is_one_group() {
    let r = ids(vec![object("A", &["B"]), object("B", &["A"])]);
    assert!(r[0].is_some());
    assert_ne!(r[0], Some(0));
    assert_eq!(r[0], r[1]);
}

#[test]
fn acyclic_chain_has_no_group() {
    let r = ids(vec![object("A", &["B"]), object("B", &["C"]), object("C", &[])]);
    assert_eq!(r, vec![None, None, None]);
}

#[test]
fn self_reference_is_a_group() {
    let r = ids(vec![object("A", &["A"])]);
    assert_eq!(r, vec![Some(1)]);
}

#[test]
fn isolated_type_has_no_group() {
    let r = ids(vec![object("A", &[])]);
    assert_eq!(r, vec![None]);
}

#[test]
fn empty_dictionary_has_no_groups() {
    let r = ids(vec![]);
    assert_eq!(r, Vec::<Option<u64>>::new());
}

#[test]
fn two_cycles_have_two_ids() {
    let r = ids(vec![
        object("A", &["B"]),
        object("B", &["A", "C"]),
        object("C", &["D"]),
        object("D", &["C"]),
        object("E", &["A"]),
    ]);
    assert!(r[0].is_some() && r[2].is_some());
    assert_eq!(r[0], r[1]);
    assert_eq!(r[2], r[3]);
    assert_ne!(r[0], r[2]);
    assert_eq!(r[4], None);
    let mut found: Vec<u64> = vec![r[0].unwrap(), r[2].unwrap()];
    found.sort();
    assert_eq!(found, vec![1, 2]);
}

#[test]
fn a_long_cycle_with_a_tail() {
    let r = ids(vec![
        object("T", &["A"]),
        object("A", &["B"]),
        object("B", &["C", "X"]),
        object("C", &["D"]),
        object("D", &["A"]),
        object("X", &[]),
    ]);
    assert_eq!(r[0], None);
    assert_eq!(r[5], None);
    assert!(r[1].is_some());
    assert_eq!(r[1], r[2]);
    assert_eq!(r[1], r[3]);
    assert_eq!(r[1], r[4]);
}

#[test]
fn the_order_of_declaration_does_not_matter() {
    let r = ids(vec![object("B", &["A"]), object("C", &[]), object("A", &["B"])]);
    assert!(r[0].is_some());
    assert_eq!(r[0], r[2]);
    assert_eq!(r[1], None);
}

#[test]
fn cycles_through_unions_lists_and_maps() {
    let union = TypeInfo::ObjectEnum(ObjectEnumTypeInfo {
        package: "p".to_string(),
        name: "U".to_string(),
        type_tag: "t".to_string(),
        values: vec![
            ObjectEnumValue::Simple("Empty".to_string()),
            ObjectEnumValue::CustomType("O".to_string()),
        ],
        configs: None,
    });
    let list = TypeInfo::List(ListTypeInfo {
        package: "p".to_string(),
        name: "L".to_string(),
        item_type: TypeName::CustomType("U".to_string()),
    });
    let map = TypeInfo::Mapping(MapTypeInfo {
        package: "p".to_string(),
        name: "M".to_string(),
        key_type: TypeName::Simple(SimpleType::String),
        value_type: TypeName::CustomType("L".to_string()),
    });
    let an_enum =
        TypeInfo::Enum(EnumTypeInfo { package: "p".to_string(), name: "E".to_string(), values: vec![] });
    let r = ids(vec![union, object("O", &["M", "E"]), list, map, an_enum]);
    assert!(r[0].is_some());
    assert_eq!(r[0], r[1]);
    assert_eq!(r[0], r[2]);
    assert_eq!(r[0], r[3]);
    assert_eq!(r[4], None);
}

#[test]
fn a_reference_to_an_undeclared_name_fails() {
    let d = dict(vec![object("A", &["B"]), object("B", &["Missing", "AlsoMissing"])]);
    assert_eq!(CycleGroups::analyze(&d).err(), Some(GenError::UnknownType("Missing".to_string())));
    assert!(TypeGraph::new(&d).is_err());
}

#[test]
fn group_id_out_of_range_is_none() {
    let d = dict(vec![object("A", &["A"])]);
    let groups = CycleGroups::analyze(&d).ok().unwrap();
    assert_eq!(groups.group_id(0), Some(1));
    assert_eq!(groups.group_id(1), None);
    assert!(groups.same_group(0, 0));
    assert!(!groups.same_group(0, 1));
}

#[test]
fn components_partition_the_nodes() {
    let d = dict(vec![
        object("A", &["B"]),
        object("B", &["A"]),
        object("C", &["A"]),
        object("D", &["D"]),
    ]);
    let graph = TypeGraph::new(&d).ok().unwrap();
    assert!(graph.has_self_edge(3));
    assert!(!graph.has_self_edge(0));
    assert!(!graph.has_self_edge(4));
    let groups = sorted(graph.group_cyclic_referenced_types());
    assert_eq!(groups, vec![vec![0, 1], vec![2], vec![3]]);
}

#[test]
fn is_cyclic_ref_is_false_for_unknown_names() {
    let d = dict(vec![object("A", &["B"]), object("B", &["A"]), object("C", &[])]);
    let context = RustContext::new(d, RustOptions::new("out".to_string())).ok().unwrap();
    assert!(context.is_cyclic_ref("A", "B"));
    assert!(context.is_cyclic_ref("B", "A"));
    assert!(context.is_cyclic_ref("A", "A"));
    assert!(!context.is_cyclic_ref("A", "C"));
    assert!(!context.is_cyclic_ref("C", "C"));
    assert!(!context.is_cyclic_ref("A", "Nowhere"));
    assert!(!context.is_cyclic_ref("Nowhere", "A"));
    assert!(!context.is_cyclic_ref("Nowhere", "Nowhere"));
}

fn on_common_cycle(edges: &Vec<Vec<usize>>) -> Vec<Vec<bool>> {
    let n = edges.len();
    let mut by_edges = vec![vec![false; n]; n];
    for (a, successors) in edges.iter().enumerate() {
        for b in successors {
            by_edges[a][*b] = true;
        }
    }
    for k in 0..n {
        for a in 0..n {
            for b in 0..n {
                if by_edges[a][k] && by_edges[k][b] {
                    by_edges[a][b] = true;
                }
            }
        }
    }
    let mut r = vec![vec![false; n]; n];
    for a in 0..n {
        for b in 0..n {
            r[a][b] = by_edges[a][b] && by_edges[b][a];
        }
    }
    r
}

#[test]
fn groups_agree_with_reachability_on_many_graphs() {
    let mut seed: u64 = 12345;
    for round in 0..200 {
        let n = 1 + (round % 9);
        let mut edges: Vec<Vec<usize>> = Vec::new();
        for _ in 0..n {
            let mut successors = Vec::new();
            for b in 0..n {
                seed = seed.wrapping_mul(6364136223846793005).wrapping_add(1442695040888963407);
                if (seed >> 33) % 100 < 22 {
                    successors.push(b);
                }
            }
            edges.push(successors);
        }
        let types: Vec<TypeInfo> = (0..n)
            .map(|a| {
                let names: Vec<String> = edges[a].iter().map(|b| format!("T{}", b)).collect();
                let refs: Vec<&str> = names.iter().map(|s| s.as_str()).collect();
                object(format!("T{}", a).as_str(), &refs)
            })
            .collect();
        let d = dict(types);
        let groups = CycleGroups::analyze(&d).ok().unwrap();
        let expected = on_common_cycle(&edges);
        let mut highest = 0;
        for a in 0..n {
            for b in 0..n {
                assert_eq!(groups.same_group(a, b), expected[a][b]);
            }
            assert_ne!(groups.group_id(a), Some(0));
            if let Some(id) = groups.group_id(a) {
                highest = highest.max(id);
            }
        }
        for id in 1..=highest {
            assert!((0..n).any(|a| groups.group_id(a) == Some(id)));
        }
    }
}
