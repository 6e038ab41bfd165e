//! Reflection-driven inspector: turn a type's reflected shape into a tree of
//! widget descriptors (checkbox, number, text, struct, enum, list, map,
//! opaque), truncating at a fixed depth so recursive types stay finite.
//!
//! The shape of a type is given as a [`TypeInfo`] tree of plain values; the
//! application builds it from the engine's reflection registry.

use vstd::prelude::*;
use crate::text::{push_str, str_equal};

verus! {

/// Maximum nesting depth before a node is truncated.
pub const MAX_DEPTH: usize = 16;

/// Which editor widget a node renders as.
#[derive(Debug, Clone, Copy, PartialEq, Eq, Structural)]
pub enum WidgetKind {
    /// `bool`.
    Checkbox,
    /// Any integer type.
    Integer,
    /// `f32` / `f64`.
    Float,
    /// `char`, `str`, `String`.
    Text,
    /// A struct, tuple struct, tuple or enum variant: a group of fields.
    Struct,
    /// An enum: one child group per variant.
    Enum,
    /// A list, array or set: one child template for the item type.
    List,
    /// A map: `key` and `value` child templates.
    KeyValue,
    /// A type the inspector cannot break down; shown read-only.
    Opaque,
}

/// A node of the inspector tree.
#[derive(Debug, PartialEq)]
pub struct WidgetDescriptor {
    /// Field name, tuple index, variant name, or the type path at the root.
    pub label: String,
    /// The reflected type path of this node.
    pub type_path: String,
    /// Which widget renders this node.
    pub kind: WidgetKind,
    /// Child nodes (fields, variants, item/key/value templates).
    pub children: Vec<WidgetDescriptor>,
    /// The node was cut off at [`MAX_DEPTH`].
    pub truncated: bool,
}

/// The reflected shape of a type.
pub struct TypeInfo {
    /// The type's path, e.g. `game::Stats`.
    pub type_path: String,
    /// How the type breaks down.
    pub shape: TypeShape,
}

/// A field, tuple element, item, key or value: its name, type path and, when
/// the registry knows it, the type's own shape.
pub struct FieldInfo {
    /// Field name, or the element index for tuples and tuple structs.
    pub name: String,
    /// The field's type path.
    pub type_path: String,
    /// The field's shape, if known.
    pub info: Option<Box<TypeInfo>>,
}

/// An enum variant and its fields (empty for a unit variant).
pub struct VariantInfo {
    /// The variant's name.
    pub name: String,
    /// Its fields, named or indexed.
    pub fields: Vec<FieldInfo>,
}

/// How a reflected type breaks down.
pub enum TypeShape {
    /// A struct, tuple struct or tuple and its fields, in declaration order.
    Struct(Vec<FieldInfo>),
    /// An enum and its variants, in declaration order.
    Enum(Vec<VariantInfo>),
    /// A list, array or set and its item type.
    List(Box<FieldInfo>),
    /// A map and its key and value types.
    KeyValue(Box<FieldInfo>, Box<FieldInfo>),
    /// A type with no reflected structure.
    Opaque,
}

/// The leaf widget for primitive type paths.
pub open spec fn leaf_kind_of(p: Seq<char>) -> Option<WidgetKind> {
    if p == "bool"@ {
        Some(WidgetKind::Checkbox)
    } else if p == "u8"@ || p == "u16"@ || p == "u32"@ || p == "u64"@ || p == "u128"@ || p
        == "usize"@ || p == "i8"@ || p == "i16"@ || p == "i32"@ || p == "i64"@ || p == "i128"@
        || p == "isize"@ {
        Some(WidgetKind::Integer)
    } else if p == "f32"@ || p == "f64"@ {
        Some(WidgetKind::Float)
    } else if p == "char"@ || p == "str"@ || p == "alloc::string::String"@ {
        Some(WidgetKind::Text)
    } else {
        None
    }
}

/// A node with no children and no truncation.
pub open spec fn is_leaf(d: WidgetDescriptor, label: Seq<char>, path: Seq<char>, kind: WidgetKind) -> bool {
    &&& d.label@ == label
    &&& d.type_path@ == path
    &&& d.kind == kind
    &&& d.children@.len() == 0
    &&& !d.truncated
}

/// How many levels, `depth` included, may still be expanded before
/// truncation: none beyond [`MAX_DEPTH`].
pub open spec fn depth_budget(depth: int) -> int {
    if depth > MAX_DEPTH {
        0
    } else {
        MAX_DEPTH + 1 - depth
    }
}

/// `d` is the inspector node for a value labelled `label` of type `path`
/// whose shape is `info` (if known), found `depth` levels below the root.
pub open spec fn describes(
    d: WidgetDescriptor,
    label: Seq<char>,
    info: Option<TypeInfo>,
    path: Seq<char>,
    depth: int,
) -> bool
    decreases depth_budget(depth), 1int,
{
    if leaf_kind_of(path) is Some {
        is_leaf(d, label, path, leaf_kind_of(path)->0)
    } else if depth >= MAX_DEPTH {
        &&& d.label@ == label
        &&& d.type_path@ == path
        &&& d.kind == WidgetKind::Opaque
        &&& d.children@.len() == 0
        &&& d.truncated
    } else {
        match info {
            None => is_leaf(d, label, path, WidgetKind::Opaque),
            Some(t) => {
                &&& d.label@ == label
                &&& d.type_path@ == path
                &&& !d.truncated
                &&& match t.shape {
                    TypeShape::Struct(fields) => {
                        &&& d.kind == WidgetKind::Struct
                        &&& d.children@.len() == fields@.len()
                        &&& forall|j: int|
                            0 <= j < fields@.len() ==> describes(
                                #[trigger] d.children@[j],
                                fields@[j].name@,
                                field_shape(fields@[j]),
                                fields@[j].type_path@,
                                depth + 1,
                            )
                    },
                    TypeShape::Enum(variants) => {
                        &&& d.kind == WidgetKind::Enum
                        &&& d.children@.len() == variants@.len()
                        &&& forall|j: int|
                            0 <= j < variants@.len() ==> describes_variant(
                                #[trigger] d.children@[j],
                                variants@[j],
                                path,
                                depth + 1,
                            )
                    },
                    TypeShape::List(item) => {
                        &&& d.kind == WidgetKind::List
                        &&& d.children@.len() == 1
                        &&& describes(d.children@[0], "item"@, field_shape(*item), item.type_path@, depth + 1)
                    },
                    TypeShape::KeyValue(key, value) => {
                        &&& d.kind == WidgetKind::KeyValue
                        &&& d.children@.len() == 2
                        &&& describes(d.children@[0], "key"@, field_shape(*key), key.type_path@, depth + 1)
                        &&& describes(d.children@[1], "value"@, field_shape(*value), value.type_path@, depth + 1)
                    },
                    TypeShape::Opaque => {
                        &&& d.kind == WidgetKind::Opaque
                        &&& d.children@.len() == 0
                    },
                }
            },
        }
    }
}

/// `d` is the group for variant `v` of the enum at `enum_path`: labelled by
/// the variant name, typed `enum_path::name`, one child per field.
pub open spec fn describes_variant(d: WidgetDescriptor, v: VariantInfo, enum_path: Seq<char>, depth: int) -> bool
    decreases depth_budget(depth + 1), 2int,
{
    &&& d.label@ == v.name@
    &&& d.type_path@ == enum_path + "::"@ + v.name@
    &&& d.kind == WidgetKind::Struct
    &&& !d.truncated
    &&& d.children@.len() == v.fields@.len()
    &&& forall|j: int|
        0 <= j < v.fields@.len() ==> describes(
            #[trigger] d.children@[j],
            v.fields@[j].name@,
            field_shape(v.fields@[j]),
            v.fields@[j].type_path@,
            depth + 1,
        )
}

/// The known shape of a field's type, if any.
pub open spec fn field_shape(f: FieldInfo) -> Option<TypeInfo> {
    match f.info {
        Some(b) => Some(*b),
        None => None,
    }
}

/// Whether no chain of nodes from `d` down to a leaf is longer than `limit`.
pub open spec fn within_height(d: WidgetDescriptor, limit: int) -> bool
    decreases limit,
{
    if limit <= 0 {
        false
    } else {
        forall|j: int| 0 <= j < d.children@.len() ==> within_height(#[trigger] d.children@[j], limit - 1)
    }
}

/// Every descriptor is finite, however recursive the type: a node found
/// `depth` levels below the root has at most `depth_budget(depth) + 1`
/// levels (one, a leaf or a truncated node, beyond [`MAX_DEPTH`]), so a
/// whole tree has at most `MAX_DEPTH + 2`.
pub proof fn lemma_descriptor_height(
    d: WidgetDescriptor,
    label: Seq<char>,
    info: Option<TypeInfo>,
    path: Seq<char>,
    depth: int,
)
    requires
        describes(d, label, info, path, depth),
    ensures
        within_height(d, depth_budget(depth) + 1),
    decreases depth_budget(depth), 1int,
{
    if leaf_kind_of(path) is Some || depth >= MAX_DEPTH {
    } else {
        match info {
            None => {},
            Some(t) => match t.shape {
                TypeShape::Struct(fields) => {
                    assert forall|j: int| 0 <= j < d.children@.len() implies within_height(
                        #[trigger] d.children@[j],
                        depth_budget(depth),
                    ) by {
                        lemma_descriptor_height(
                            d.children@[j],
                            fields@[j].name@,
                            field_shape(fields@[j]),
                            fields@[j].type_path@,
                            depth + 1,
                        );
                    }
                },
                TypeShape::Enum(variants) => {
                    assert forall|j: int| 0 <= j < d.children@.len() implies within_height(
                        #[trigger] d.children@[j],
                        depth_budget(depth),
                    ) by {
                        lemma_variant_height(d.children@[j], variants@[j], path, depth + 1);
                    }
                },
                TypeShape::List(item) => {
                    lemma_descriptor_height(d.children@[0], "item"@, field_shape(*item), item.type_path@, depth + 1);
                },
                TypeShape::KeyValue(key, value) => {
                    lemma_descriptor_height(d.children@[0], "key"@, field_shape(*key), key.type_path@, depth + 1);
                    lemma_descriptor_height(
                        d.children@[1],
                        "value"@,
                        field_shape(*value),
                        value.type_path@,
                        depth + 1,
                    );
                    assert forall|j: int| 0 <= j < d.children@.len() implies within_height(
                        #[trigger] d.children@[j],
                        depth_budget(depth),
                    ) by {
                        if j == 0 {
                        } else {
                            assert(j == 1);
                        }
                    }
                },
                TypeShape::Opaque => {},
            },
        }
    }
}

proof fn lemma_variant_height(d: WidgetDescriptor, v: VariantInfo, enum_path: Seq<char>, depth: int)
    requires
        describes_variant(d, v, enum_path, depth),
    ensures
        within_height(d, depth_budget(depth + 1) + 2),
    decreases depth_budget(depth + 1), 2int,
{
    assert forall|j: int| 0 <= j < d.children@.len() implies within_height(
        #[trigger] d.children@[j],
        depth_budget(depth + 1) + 1,
    ) by {
        lemma_descriptor_height(
            d.children@[j],
            v.fields@[j].name@,
            field_shape(v.fields@[j]),
            v.fields@[j].type_path@,
            depth + 1,
        );
    }
}

/// The children of an enum node are the groups of its variants, in
/// declaration order: each labelled by the variant's name and typed by the
/// enum node's own type path, `::`, and that name.
pub proof fn lemma_enum_children_paths(
    d: WidgetDescriptor,
    label: Seq<char>,
    info: Option<TypeInfo>,
    path: Seq<char>,
    depth: int,
)
    requires
        describes(d, label, info, path, depth),
        leaf_kind_of(path) is None,
        depth < MAX_DEPTH,
    ensures
        info matches Some(t) ==> (t.shape matches TypeShape::Enum(vs) ==> {
            &&& d.children@.len() == vs@.len()
            &&& forall|j: int|
                0 <= j < vs@.len() ==> (#[trigger] d.children@[j]).type_path@ == d.type_path@ + "::"@
                    + vs@[j].name@ && d.children@[j].label@ == vs@[j].name@
        }),
{
    if let Some(t) = info {
        if let TypeShape::Enum(vs) = t.shape {
            assert forall|j: int| 0 <= j < vs@.len() implies (#[trigger] d.children@[j]).type_path@
                == d.type_path@ + "::"@ + vs@[j].name@ && d.children@[j].label@ == vs@[j].name@ by {
                assert(describes_variant(d.children@[j], vs@[j], path, depth + 1));
            }
        }
    }
}

/// Whether a flag is off (used to omit `truncated: false` when serializing).
pub fn is_false(b: &bool) -> (r: bool)
    ensures
        r == !*b,
{
    !*b
}

/// The leaf widget for a primitive type path, or `None` for composite types.
pub fn leaf_kind(type_path: &str) -> (r: Option<WidgetKind>)
    ensures
        r == leaf_kind_of(type_path@),
{
    if str_equal(type_path, "bool") {
        Some(WidgetKind::Checkbox)
    } else if str_equal(type_path, "u8") || str_equal(type_path, "u16") || str_equal(type_path, "u32")
        || str_equal(type_path, "u64") || str_equal(type_path, "u128") || str_equal(type_path, "usize")
        || str_equal(type_path, "i8") || str_equal(type_path, "i16") || str_equal(type_path, "i32")
        || str_equal(type_path, "i64") || str_equal(type_path, "i128") || str_equal(type_path, "isize") {
        Some(WidgetKind::Integer)
    } else if str_equal(type_path, "f32") || str_equal(type_path, "f64") {
        Some(WidgetKind::Float)
    } else if str_equal(type_path, "char") || str_equal(type_path, "str") || str_equal(
        type_path,
        "alloc::string::String",
    ) {
        Some(WidgetKind::Text)
    } else {
        None
    }
}

fn owned(s: &str) -> (r: String)
    ensures
        r@ == s@,
{
    let mut r = String::new();
    push_str(&mut r, s);
    r
}

/// The known shape of an optional boxed type.
pub open spec fn opt_shape(info: Option<&TypeInfo>) -> Option<TypeInfo> {
    match info {
        Some(t) => Some(*t),
        None => None,
    }
}

fn boxed_ref(b: &Option<Box<TypeInfo>>) -> (r: Option<&TypeInfo>)
    ensures
        opt_shape(r) == match *b {
            Some(x) => Some(*x),
            None => None,
        },
{
    match b {
        Some(x) => Some(&**x),
        None => None,
    }
}

impl WidgetDescriptor {
    /// A leaf node.
    pub fn leaf(label: String, type_path: &str, kind: WidgetKind) -> (d: Self)
        ensures
            is_leaf(d, label@, type_path@, kind),
    {
        Self { label, type_path: owned(type_path), kind, children: Vec::new(), truncated: false }
    }

    /// A node with children.
    pub fn group(label: String, type_path: &str, kind: WidgetKind, children: Vec<Self>) -> (d: Self)
        ensures
            d.label@ == label@,
            d.type_path@ == type_path@,
            d.kind == kind,
            d.children == children,
            !d.truncated,
    {
        Self { label, type_path: owned(type_path), kind, children, truncated: false }
    }

    /// A node cut off at the depth limit.
    pub fn truncated(label: String, type_path: &str) -> (d: Self)
        ensures
            d.label@ == label@,
            d.type_path@ == type_path@,
            d.kind == WidgetKind::Opaque,
            d.children@.len() == 0,
            d.truncated,
    {
        Self {
            label,
            type_path: owned(type_path),
            kind: WidgetKind::Opaque,
            children: Vec::new(),
            truncated: true,
        }
    }
}

fn describe_fields(fields: &Vec<FieldInfo>, depth: usize) -> (r: Vec<WidgetDescriptor>)
    requires
        depth < usize::MAX,
    ensures
        r@.len() == fields@.len(),
        forall|j: int|
            0 <= j < fields@.len() ==> describes(
                #[trigger] r@[j],
                fields@[j].name@,
                field_shape(fields@[j]),
                fields@[j].type_path@,
                depth + 1,
            ),
    decreases depth_budget(depth + 1), 4int,
{
    let mut out: Vec<WidgetDescriptor> = Vec::new();
    let mut j: usize = 0;
    while j < fields.len()
        invariant
            j <= fields@.len(),
            depth < usize::MAX,
            out@.len() == j,
            forall|k: int|
                0 <= k < j ==> describes(
                    #[trigger] out@[k],
                    fields@[k].name@,
                    field_shape(fields@[k]),
                    fields@[k].type_path@,
                    depth + 1,
                ),
        decreases fields@.len() - j,
    {
        let f = &fields[j];
        let d = describe_node(owned(f.name.as_str()), boxed_ref(&f.info), f.type_path.as_str(), depth + 1);
        out.push(d);
        j = j + 1;
    }
    out
}

fn describe_variant(variant: &VariantInfo, enum_path: &str, depth: usize) -> (d: WidgetDescriptor)
    requires
        depth < usize::MAX,
    ensures
        describes_variant(d, *variant, enum_path@, depth as int),
    decreases depth_budget(depth + 1), 5int,
{
    let mut variant_path = String::new();
    push_str(&mut variant_path, enum_path);
    push_str(&mut variant_path, "::");
    push_str(&mut variant_path, variant.name.as_str());
    let children = describe_fields(&variant.fields, depth);
    WidgetDescriptor::group(owned(variant.name.as_str()), variant_path.as_str(), WidgetKind::Struct, children)
}

/// Describe one node: leaves by type path, truncation at [`MAX_DEPTH`], and
/// otherwise by the type's shape.
pub fn describe_node(label: String, info: Option<&TypeInfo>, type_path: &str, depth: usize) -> (d:
    WidgetDescriptor)
    ensures
        describes(d, label@, opt_shape(info), type_path@, depth as int),
    decreases depth_budget(depth as int), 3int,
{
    if let Some(kind) = leaf_kind(type_path) {
        return WidgetDescriptor::leaf(label, type_path, kind);
    }
    if depth >= MAX_DEPTH {
        return WidgetDescriptor::truncated(label, type_path);
    }
    let info = match info {
        Some(i) => i,
        None => {
            return WidgetDescriptor::leaf(label, type_path, WidgetKind::Opaque);
        },
    };
    match &info.shape {
        TypeShape::Struct(fields) => {
            let children = describe_fields(fields, depth);
            WidgetDescriptor::group(label, type_path, WidgetKind::Struct, children)
        },
        TypeShape::Enum(variants) => {
            let mut children: Vec<WidgetDescriptor> = Vec::new();
            let mut j: usize = 0;
            while j < variants.len()
                invariant
                    j <= variants@.len(),
                    depth < MAX_DEPTH,
                    children@.len() == j,
                    forall|k: int|
                        0 <= k < j ==> describes_variant(
                            #[trigger] children@[k],
                            variants@[k],
                            type_path@,
                            depth + 1,
                        ),
                decreases variants@.len() - j,
            {
                children.push(describe_variant(&variants[j], type_path, depth + 1));
                j = j + 1;
            }
            WidgetDescriptor::group(label, type_path, WidgetKind::Enum, children)
        },
        TypeShape::List(item) => {
            let d = describe_node(owned("item"), boxed_ref(&item.info), item.type_path.as_str(), depth + 1);
            let mut children: Vec<WidgetDescriptor> = Vec::new();
            children.push(d);
            WidgetDescriptor::group(label, type_path, WidgetKind::List, children)
        },
        TypeShape::KeyValue(key, value) => {
            let k = describe_node(owned("key"), boxed_ref(&key.info), key.type_path.as_str(), depth + 1);
            let v = describe_node(owned("value"), boxed_ref(&value.info), value.type_path.as_str(), depth + 1);
            let mut children: Vec<WidgetDescriptor> = Vec::new();
            children.push(k);
            children.push(v);
            WidgetDescriptor::group(label, type_path, WidgetKind::KeyValue, children)
        },
        TypeShape::Opaque => WidgetDescriptor::leaf(label, type_path, WidgetKind::Opaque),
    }
}

/// Describe a whole type: the root is labelled with the type path.
pub fn describe_type(info: &TypeInfo) -> (d: WidgetDescriptor)
    ensures
        describes(d, info.type_path@, Some(*info), info.type_path@, 0),
{
    describe_node(owned(info.type_path.as_str()), Some(info), info.type_path.as_str(), 0)
}

// ---------------------------------------------------------------------------
// The registry surface.
// ---------------------------------------------------------------------------

/// One entry of the reflection registry: the registered type's shape, and
/// whether it is registered as an ECS component.
pub struct Registration {
    /// The registered type's shape.
    pub info: TypeInfo,
    /// The type is reflected as a component (`#[reflect(Component)]`).
    pub is_component: bool,
}

/// Code-point lexicographic order on strings: the order of `str::cmp`, as
/// UTF-8 preserves the order of code points.
pub open spec fn lex_le(a: Seq<char>, b: Seq<char>) -> bool
    decreases a.len(),
{
    if a.len() == 0 {
        true
    } else if b.len() == 0 {
        false
    } else if a[0] != b[0] {
        (a[0] as int) < (b[0] as int)
    } else {
        lex_le(a.drop_first(), b.drop_first())
    }
}

/// Any two strings are ordered one way or the other.
pub proof fn lemma_lex_le_total(a: Seq<char>, b: Seq<char>)
    ensures
        lex_le(a, b) || lex_le(b, a),
    decreases a.len(),
{
    if a.len() > 0 && b.len() > 0 && a[0] == b[0] {
        lemma_lex_le_total(a.drop_first(), b.drop_first());
    }
}

/// The order is transitive.
pub proof fn lemma_lex_le_transitive(a: Seq<char>, b: Seq<char>, c: Seq<char>)
    requires
        lex_le(a, b),
        lex_le(b, c),
    ensures
        lex_le(a, c),
    decreases a.len(),
{
    if a.len() > 0 && b.len() > 0 && c.len() > 0 && a[0] == b[0] && b[0] == c[0] {
        lemma_lex_le_transitive(a.drop_first(), b.drop_first(), c.drop_first());
    }
}

/// Whether `a` comes no later than `b` in code-point order.
fn path_le(a: &str, b: &str) -> (r: bool)
    ensures
        r == lex_le(a@, b@),
{
    let na = a.unicode_len();
    let nb = b.unicode_len();
    let mut i: usize = 0;
    assert(a@.skip(0) =~= a@ && b@.skip(0) =~= b@);
    while i < na && i < nb && a.get_char(i) == b.get_char(i)
        invariant
            na == a@.len(),
            nb == b@.len(),
            i <= na,
            i <= nb,
            lex_le(a@, b@) == lex_le(a@.skip(i as int), b@.skip(i as int)),
        decreases na - i,
    {
        assert(a@.skip(i as int).drop_first() =~= a@.skip(i + 1));
        assert(b@.skip(i as int).drop_first() =~= b@.skip(i + 1));
        i = i + 1;
    }
    if i == na {
        true
    } else if i == nb {
        false
    } else {
        let ca = a.get_char(i);
        let cb = b.get_char(i);
        assert(a@.skip(i as int)[0] == ca && b@.skip(i as int)[0] == cb);
        (ca as u32) < (cb as u32)
    }
}

/// The descriptor of a registered type: its shape described from the root.
pub fn describe_registration(registration: &Registration) -> (d: WidgetDescriptor)
    ensures
        describes(
            d,
            registration.info.type_path@,
            Some(registration.info),
            registration.info.type_path@,
            0,
        ),
{
    describe_type(&registration.info)
}

/// Whether `i` is the first registration of a type at `path`.
pub open spec fn is_first_registration(regs: Seq<Registration>, path: Seq<char>, i: int) -> bool {
    &&& 0 <= i < regs.len()
    &&& regs[i].info.type_path@ == path
    &&& forall|j: int| 0 <= j < i ==> regs[j].info.type_path@ != path
}

/// Look a type up by its path: its descriptor if it is registered.
pub fn describe_by_path(registry: &[Registration], type_path: &str) -> (r: Option<WidgetDescriptor>)
    ensures
        r is Some <==> exists|i: int| 0 <= i < registry@.len() && registry@[i].info.type_path@ == type_path@,
        r matches Some(d) ==> exists|i: int|
            is_first_registration(registry@, type_path@, i) && describes(
                d,
                type_path@,
                Some(#[trigger] registry@[i].info),
                type_path@,
                0,
            ),
{
    let mut i: usize = 0;
    while i < registry.len()
        invariant
            i <= registry@.len(),
            forall|j: int| 0 <= j < i ==> registry@[j].info.type_path@ != type_path@,
        decreases registry@.len() - i,
    {
        if str_equal(registry[i].info.type_path.as_str(), type_path) {
            let d = describe_registration(&registry[i]);
            assert(is_first_registration(registry@, type_path@, i as int));
            return Some(d);
        }
        i = i + 1;
    }
    None
}

/// Whether `order` lists every component registration of `regs` exactly
/// once, sorted by type path.
pub open spec fn component_listing(regs: Seq<Registration>, order: Seq<int>) -> bool {
    &&& order.no_duplicates()
    &&& forall|k: int| 0 <= k < order.len() ==> 0 <= #[trigger] order[k] < regs.len() && regs[order[k]].is_component
    &&& forall|i: int| 0 <= i < regs.len() && #[trigger] regs[i].is_component ==> order.contains(i)
    &&& forall|a: int, b: int|
        0 <= a < b < order.len() ==> lex_le(
            regs[#[trigger] order[a]].info.type_path@,
            regs[#[trigger] order[b]].info.type_path@,
        )
}

/// The descriptors of every registered component, sorted by type path so
/// that enumeration is stable. Types that are registered but not components
/// are left out.
pub fn inspect_components(registry: &[Registration]) -> (r: Vec<WidgetDescriptor>)
    ensures
        exists|order: Seq<int>|
            component_listing(registry@, order) && r@.len() == order.len() && forall|k: int|
                0 <= k < order.len() ==> describes(
                    #[trigger] r@[k],
                    registry@[order[k]].info.type_path@,
                    Some(registry@[order[k]].info),
                    registry@[order[k]].info.type_path@,
                    0,
                ),
{
    let ghost regs = registry@;
    let mut order: Vec<usize> = Vec::new();
    let mut i: usize = 0;
    while i < registry.len()
        invariant
            regs == registry@,
            i <= regs.len(),
            order@.no_duplicates(),
            forall|k: int| 0 <= k < order@.len() ==> #[trigger] order@[k] < i && regs[order@[k] as int].is_component,
            forall|q: int| 0 <= q < i && #[trigger] regs[q].is_component ==> order@.contains(q as usize),
            forall|a: int, b: int|
                0 <= a < b < order@.len() ==> lex_le(
                    regs[#[trigger] order@[a] as int].info.type_path@,
                    regs[#[trigger] order@[b] as int].info.type_path@,
                ),
        decreases regs.len() - i,
    {
        if registry[i].is_component {
            let path = registry[i].info.type_path.as_str();
            let mut p: usize = 0;
            while p < order.len() && path_le(registry[order[p]].info.type_path.as_str(), path)
                invariant
                    regs == registry@,
                    i < regs.len(),
                    path@ == regs[i as int].info.type_path@,
                    p <= order@.len(),
                    forall|k: int| 0 <= k < order@.len() ==> #[trigger] order@[k] < i,
                    forall|k: int| 0 <= k < p ==> lex_le(regs[#[trigger] order@[k] as int].info.type_path@, path@),
                decreases order@.len() - p,
            {
                p = p + 1;
            }
            let ghost old_order = order@;
            proof {
                if p < old_order.len() {
                    lemma_lex_le_total(regs[old_order[p as int] as int].info.type_path@, path@);
                }
            }
            order.insert(p, i);
            proof {
                let np = p as int;
                assert(order@ == old_order.insert(np, i));
                assert forall|k: int| 0 <= k < order@.len() implies #[trigger] order@[k] < i + 1 && regs[order@[k] as int].is_component by {
                    if k < np {
                        assert(order@[k] == old_order[k]);
                    } else if k > np {
                        assert(order@[k] == old_order[k - 1]);
                    }
                }
                assert forall|a: int, b: int| 0 <= a < b < order@.len() implies lex_le(
                    regs[#[trigger] order@[a] as int].info.type_path@,
                    regs[#[trigger] order@[b] as int].info.type_path@,
                ) by {
                    let pa = regs[order@[a] as int].info.type_path@;
                    let pb = regs[order@[b] as int].info.type_path@;
                    if b < np {
                        assert(order@[a] == old_order[a] && order@[b] == old_order[b]);
                    } else if a > np {
                        assert(order@[a] == old_order[a - 1] && order@[b] == old_order[b - 1]);
                    } else if a < np && b > np {
                        assert(order@[a] == old_order[a] && order@[b] == old_order[b - 1]);
                    } else if a == np {
                        assert(order@[b] == old_order[b - 1]);
                        let first = regs[old_order[np] as int].info.type_path@;
                        assert(lex_le(path@, first));
                        if b - 1 > np {
                            assert(lex_le(first, pb));
                            lemma_lex_le_transitive(path@, first, pb);
                        }
                    } else {
                        assert(b == np);
                        assert(order@[a] == old_order[a]);
                    }
                }
                assert(order@.no_duplicates()) by {
                    assert forall|a: int, b: int| 0 <= a < b < order@.len() implies order@[a] != order@[b] by {
                        if a == np {
                            assert(order@[b] == old_order[b - 1]);
                        } else if b == np {
                            assert(order@[a] == old_order[a]);
                        } else {
                            let oa = if a < np { a } else { a - 1 };
                            let ob = if b < np { b } else { b - 1 };
                            assert(order@[a] == old_order[oa] && order@[b] == old_order[ob]);
                        }
                    }
                }
                assert forall|q: int| 0 <= q < i + 1 && #[trigger] regs[q].is_component implies order@.contains(q as usize) by {
                    if q == i {
                        assert(order@[np] == i);
                    } else {
                        assert(old_order.contains(q as usize));
                        let w = choose|w: int| 0 <= w < old_order.len() && old_order[w] == q as usize;
                        if w < np {
                            assert(order@[w] == q as usize);
                        } else {
                            assert(order@[w + 1] == q as usize);
                        }
                    }
                }
            }
        }
        i = i + 1;
    }
    let mut out: Vec<WidgetDescriptor> = Vec::new();
    let mut k: usize = 0;
    while k < order.len()
        invariant
            regs == registry@,
            k <= order@.len(),
            forall|m: int| 0 <= m < order@.len() ==> #[trigger] order@[m] < regs.len(),
            out@.len() == k,
            forall|m: int|
                0 <= m < k ==> describes(
                    #[trigger] out@[m],
                    regs[order@[m] as int].info.type_path@,
                    Some(regs[order@[m] as int].info),
                    regs[order@[m] as int].info.type_path@,
                    0,
                ),
        decreases order@.len() - k,
    {
        out.push(describe_registration(&registry[order[k]]));
        k = k + 1;
    }
    let ghost witness = order@.map_values(|x: usize| x as int);
    proof {
        assert(component_listing(regs, witness)) by {
            assert forall|a: int, b: int| 0 <= a < b < witness.len() implies witness[a] != witness[b] by {
                assert(order@[a] != order@[b]);
            }
            assert forall|q: int| 0 <= q < regs.len() && #[trigger] regs[q].is_component implies witness.contains(q) by {
                let w = choose|w: int| 0 <= w < order@.len() && order@[w] == q as usize;
                assert(witness[w] == q);
            }
            assert forall|a: int, b: int| 0 <= a < b < witness.len() implies lex_le(
                regs[#[trigger] witness[a]].info.type_path@,
                regs[#[trigger] witness[b]].info.type_path@,
            ) by {
                assert(witness[a] == order@[a] as int && witness[b] == order@[b] as int);
            }
        }
        assert(forall|m: int| 0 <= m < witness.len() ==> witness[m] == order@[m] as int);
    }
    out
}

} // verus!
