use omm::{
    describe_by_path, describe_node, describe_registration, describe_type, inspect_components,
    leaf_kind, FieldInfo, Registration, TypeInfo, TypeShape, VariantInfo, WidgetDescriptor,
    WidgetKind, MAX_DEPTH,
};

// --- fixtures: the shapes the engine's reflection registry reports ----------

fn opaque(path: &str) -> TypeInfo {
    TypeInfo { type_path: path.to_owned(), shape: TypeShape::Opaque }
}

fn field(name: &str, path: &str, info: Option<TypeInfo>) -> FieldInfo {
    FieldInfo { name: name.to_owned(), type_path: path.to_owned(), info: info.map(Box::new) }
}

fn prim(name: &str, path: &str) -> FieldInfo {
    field(name, path, Some(opaque(path)))
}

fn stats() -> TypeInfo {
    TypeInfo {
        type_path: "game::Stats".to_owned(),
        shape: TypeShape::Struct(vec![
            prim("hp", "u32"),
            prim("speed", "f32"),
            prim("name", "alloc::string::String"),
            prim("alive", "bool"),
        ]),
    }
}

fn wrapper() -> TypeInfo {
    TypeInfo {
        type_path: "game::Wrapper".to_owned(),
        shape: TypeShape::Struct(vec![prim("0", "u32"), prim("1", "alloc::string::String")]),
    }
}

fn mode() -> TypeInfo {
    TypeInfo {
        type_path: "game::Mode".to_owned(),
        shape: TypeShape::Enum(vec![
            VariantInfo { name: "Idle".to_owned(), fields: vec![] },
            VariantInfo { name: "Walk".to_owned(), fields: vec![prim("0", "f32")] },
            VariantInfo {
                name: "Attack".to_owned(),
                fields: vec![prim("power", "u32"), prim("ranged", "bool")],
            },
        ]),
    }
}

fn with_vec() -> TypeInfo {
    let vec_u32 = TypeInfo {
        type_path: "alloc::vec::Vec<u32>".to_owned(),
        shape: TypeShape::List(Box::new(prim("item", "u32"))),
    };
    TypeInfo {
        type_path: "game::WithVec".to_owned(),
        shape: TypeShape::Struct(vec![field("items", "alloc::vec::Vec<u32>", Some(vec_u32))]),
    }
}

fn with_map() -> TypeInfo {
    let path = "std::collections::hash::map::HashMap<alloc::string::String, u32>";
    let map = TypeInfo {
        type_path: path.to_owned(),
        shape: TypeShape::KeyValue(
            Box::new(prim("key", "alloc::string::String")),
            Box::new(prim("value", "u32")),
        ),
    };
    TypeInfo {
        type_path: "game::WithMap".to_owned(),
        shape: TypeShape::Struct(vec![field("table", path, Some(map))]),
    }
}

/// `struct Recur { next: Vec<Recur> }`, unrolled deeper than the inspector
/// ever looks.
fn recur(levels: usize) -> TypeInfo {
    let inner = if levels == 0 { None } else { Some(recur(levels - 1)) };
    let list = TypeInfo {
        type_path: "alloc::vec::Vec<game::Recur>".to_owned(),
        shape: TypeShape::List(Box::new(field("item", "game::Recur", inner))),
    };
    TypeInfo {
        type_path: "game::Recur".to_owned(),
        shape: TypeShape::Struct(vec![field("next", "alloc::vec::Vec<game::Recur>", Some(list))]),
    }
}

// --- helpers ----------------------------------------------------------------

fn child<'a>(d: &'a WidgetDescriptor, label: &str) -> &'a WidgetDescriptor {
    d.children
        .iter()
        .find(|c| c.label == label)
        .unwrap_or_else(|| panic!("no child labelled `{label}` in {d:?}"))
}

fn has_truncated(d: &WidgetDescriptor) -> bool {
    d.truncated || d.children.iter().any(has_truncated)
}

fn height(d: &WidgetDescriptor) -> usize {
    1 + d.children.iter().map(height).max().unwrap_or(0)
}

// --- primitives & structs ---------------------------------------------------

#[test]
fn primitive_fields_map_to_leaf_widgets() {
    let d = describe_type(&stats());
    assert_eq!(d.kind, WidgetKind::Struct);
    assert_eq!(d.label, "game::Stats");
    assert_eq!(d.children.len(), 4);
    assert_eq!(child(&d, "hp").kind, WidgetKind::Integer);
    assert_eq!(child(&d, "speed").kind, WidgetKind::Float);
    assert_eq!(child(&d, "name").kind, WidgetKind::Text);
    assert_eq!(child(&d, "alive").kind, WidgetKind::Checkbox);
    // Leaves carry no children.
    assert!(child(&d, "hp").children.is_empty());
}

#[test]
fn tuple_struct_fields_are_indexed() {
    let d = describe_type(&wrapper());
    assert_eq!(d.kind, WidgetKind::Struct);
    assert_eq!(d.children.len(), 2);
    assert_eq!(child(&d, "0").kind, WidgetKind::Integer);
    assert_eq!(child(&d, "1").kind, WidgetKind::Text);
}

// --- enums ------------------------------------------------------------------

#[test]
fn enum_variants_become_groups() {
    let d = describe_type(&mode());
    assert_eq!(d.kind, WidgetKind::Enum);
    assert_eq!(d.children.len(), 3);

    let idle = child(&d, "Idle");
    assert_eq!(idle.kind, WidgetKind::Struct);
    assert!(idle.children.is_empty());
    assert!(idle.type_path.ends_with("::Idle"));

    let walk = child(&d, "Walk");
    assert_eq!(walk.children.len(), 1);
    assert_eq!(child(walk, "0").kind, WidgetKind::Float);

    let attack = child(&d, "Attack");
    assert_eq!(attack.children.len(), 2);
    assert_eq!(child(attack, "power").kind, WidgetKind::Integer);
    assert_eq!(child(attack, "ranged").kind, WidgetKind::Checkbox);
}

// --- collections ------------------------------------------------------------

#[test]
fn vec_field_is_a_list_template() {
    let d = describe_type(&with_vec());
    let items = child(&d, "items");
    assert_eq!(items.kind, WidgetKind::List);
    assert_eq!(items.children.len(), 1);
    let template = child(items, "item");
    assert_eq!(template.kind, WidgetKind::Integer);
}

#[test]
fn map_field_has_key_and_value_templates() {
    let d = describe_type(&with_map());
    let table = child(&d, "table");
    assert_eq!(table.kind, WidgetKind::KeyValue);
    assert_eq!(child(table, "key").kind, WidgetKind::Text);
    assert_eq!(child(table, "value").kind, WidgetKind::Integer);
}

#[test]
fn opaque_type_is_a_read_only_leaf() {
    let d = describe_type(&opaque("game::Blob"));
    assert_eq!(d.kind, WidgetKind::Opaque);
    assert!(d.children.is_empty());
    assert!(!d.truncated);
}

// --- invariants -------------------------------------------------------------

#[test]
fn recursive_type_truncates_instead_of_overflowing() {
    let d = describe_type(&recur(40));
    assert!(
        has_truncated(&d),
        "self-referential type must truncate at MAX_DEPTH"
    );
    assert!(height(&d) <= MAX_DEPTH + 1);
}

#[test]
fn descriptor_is_deterministic() {
    // Same type → identical descriptor, and enumeration is stably ordered.
    assert_eq!(describe_type(&stats()), describe_type(&stats()));
    assert_eq!(describe_type(&recur(20)), describe_type(&recur(30)));
    let registry = vec![comp_z(), comp_a()];
    assert_eq!(inspect_components(&registry), inspect_components(&registry));
}

// --- registry-driven surface ------------------------------------------------

fn comp(path: &str, field_name: &str, field_path: &str, is_component: bool) -> Registration {
    Registration {
        info: TypeInfo {
            type_path: path.to_owned(),
            shape: TypeShape::Struct(vec![prim(field_name, field_path)]),
        },
        is_component,
    }
}

fn comp_a() -> Registration {
    comp("game::CompA", "x", "u32", true)
}

fn comp_z() -> Registration {
    comp("game::CompZ", "y", "bool", true)
}

fn plain_data() -> Registration {
    comp("game::PlainData", "z", "f32", false)
}

#[test]
fn inspect_components_lists_only_components_sorted() {
    // Registered out of order + a non-component to prove filtering and sorting.
    let registry = vec![comp_z(), plain_data(), comp_a()];
    let out = inspect_components(&registry);
    assert_eq!(
        out.len(),
        2,
        "only #[reflect(Component)] types are inspectable"
    );
    assert!(out[0].type_path.ends_with("::CompA"));
    assert!(out[1].type_path.ends_with("::CompZ"));
    assert!(out.iter().all(|d| !d.type_path.ends_with("::PlainData")));
    // Field widgets are generated for the component too.
    assert_eq!(child(&out[0], "x").kind, WidgetKind::Integer);
}

#[test]
fn describe_by_path_resolves_registered_and_rejects_unknown() {
    let registry = vec![comp_a()];
    let d = describe_by_path(&registry, "game::CompA").expect("registered type resolves");
    assert_eq!(d.type_path, "game::CompA");
    assert!(describe_by_path(&registry, "does::not::Exist").is_none());
}

#[test]
fn registration_is_described_from_its_root() {
    let d = describe_registration(&comp_a());
    assert_eq!(d.label, "game::CompA");
    assert_eq!(d.kind, WidgetKind::Struct);
    assert_eq!(child(&d, "x").kind, WidgetKind::Integer);
}

#[test]
fn component_order_is_by_code_point_and_stable_for_equal_paths() {
    let registry = vec![
        comp("game::b", "f", "u8", true),
        comp("game::B", "g", "u8", true),
        comp("game::a", "first", "u8", true),
        comp("game::Ab", "h", "u8", true),
        comp("game::a", "second", "bool", true),
        comp("game::", "i", "u8", true),
    ];
    let out = inspect_components(&registry);
    let paths: Vec<&str> = out.iter().map(|d| d.type_path.as_str()).collect();
    assert_eq!(paths, ["game::", "game::Ab", "game::B", "game::a", "game::a", "game::b"]);
    // Equal paths keep registry order.
    assert_eq!(out[3].children[0].label, "first");
    assert_eq!(out[4].children[0].label, "second");
    assert!(inspect_components(&[]).is_empty());
}

#[test]
fn unknown_shape_is_an_opaque_leaf_and_depth_limit_truncates() {
    let d = describe_node("x".to_owned(), None, "game::Unknown", 3);
    assert_eq!(d.kind, WidgetKind::Opaque);
    assert!(!d.truncated);
    let t = describe_node("x".to_owned(), Some(&stats()), "game::Stats", MAX_DEPTH);
    assert_eq!(t.kind, WidgetKind::Opaque);
    assert!(t.truncated);
    assert!(t.children.is_empty());
    // Primitives stay leaves even past the limit.
    let p = describe_node("n".to_owned(), None, "u8", MAX_DEPTH + 1);
    assert_eq!(p.kind, WidgetKind::Integer);
    assert!(!p.truncated);
}

#[test]
fn any_depth_past_the_limit_truncates() {
    for depth in [MAX_DEPTH + 1, 1000, usize::MAX] {
        let t = describe_node("x".to_owned(), Some(&stats()), "game::Stats", depth);
        assert_eq!(t.label, "x");
        assert_eq!(t.type_path, "game::Stats");
        assert_eq!(t.kind, WidgetKind::Opaque);
        assert!(t.truncated);
        assert!(t.children.is_empty());
    }
    let p = describe_node("n".to_owned(), None, "bool", usize::MAX);
    assert_eq!(p.kind, WidgetKind::Checkbox);
    assert!(!p.truncated);
}

#[test]
fn leaf_kinds_cover_the_primitives() {
    assert_eq!(leaf_kind("bool"), Some(WidgetKind::Checkbox));
    for p in ["u8", "u16", "u32", "u64", "u128", "usize", "i8", "i16", "i32", "i64", "i128", "isize"] {
        assert_eq!(leaf_kind(p), Some(WidgetKind::Integer), "{p}");
    }
    assert_eq!(leaf_kind("f64"), Some(WidgetKind::Float));
    assert_eq!(leaf_kind("char"), Some(WidgetKind::Text));
    assert_eq!(leaf_kind("str"), Some(WidgetKind::Text));
    assert_eq!(leaf_kind("alloc::string::String"), Some(WidgetKind::Text));
    assert_eq!(leaf_kind("String"), None);
    assert_eq!(leaf_kind("game::Stats"), None);
}

#[test]
fn widget_constructors_set_their_flags() {
    let l = WidgetDescriptor::leaf("a".to_owned(), "u8", WidgetKind::Integer);
    assert!(!l.truncated && l.children.is_empty());
    let t = WidgetDescriptor::truncated("b".to_owned(), "game::T");
    assert!(t.truncated);
    assert_eq!(t.kind, WidgetKind::Opaque);
    let g = WidgetDescriptor::group("c".to_owned(), "game::G", WidgetKind::Struct, vec![l]);
    assert_eq!(g.children.len(), 1);
    assert_eq!(g.type_path, "game::G");
}
