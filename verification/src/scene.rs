//! Scene and prefab errors, and the spawn decision: a prefab either spawns
//! whole or not at all, and every refusal names the offending type.

use vstd::prelude::*;
use crate::text::{decimal, push_decimal, push_str};

verus! {

/// The scene runtime plugin. The library holds its identity; the
/// application wires it into the engine.
#[derive(Debug, Default, Clone, Copy)]
pub struct EngineScenePlugin;

/// Everything that can go wrong turning scene data into live entities.
#[derive(Debug, Clone, PartialEq, Eq)]
#[non_exhaustive]
pub enum SceneError {
    /// The prefab text could not be parsed.
    Parse(String),
    /// A component names a type absent from the reflection registry.
    UnregisteredType {
        /// Reflection type path of the offending component.
        type_path: String,
    },
    /// A component's type is registered but not spawnable as a component;
    /// the entities created before it were rolled back.
    PartialSpawn {
        /// Number of entities created (and despawned again) before the abort.
        spawned: usize,
        /// Reflection type path of the component that could not be applied.
        type_path: String,
    },
}

/// The display text of a scene error.
pub open spec fn scene_error_text(e: SceneError) -> Seq<char> {
    match e {
        SceneError::Parse(d) => "failed to parse prefab: "@ + d@,
        SceneError::UnregisteredType { type_path } => "component type `"@ + type_path@
            + "` is not registered for reflection"@,
        SceneError::PartialSpawn { spawned, type_path } => "prefab spawn rolled back: "@ + decimal(
            spawned as nat,
        ) + " entities were created before component `"@ + type_path@
            + "` (not a spawnable Component) aborted the spawn"@,
    }
}

impl SceneError {
    /// The human-readable description of this error.
    pub fn to_string(&self) -> (s: String)
        ensures
            s@ == scene_error_text(*self),
    {
        let mut s = String::new();
        match self {
            SceneError::Parse(d) => {
                push_str(&mut s, "failed to parse prefab: ");
                push_str(&mut s, d.as_str());
            },
            SceneError::UnregisteredType { type_path } => {
                push_str(&mut s, "component type `");
                push_str(&mut s, type_path.as_str());
                push_str(&mut s, "` is not registered for reflection");
            },
            SceneError::PartialSpawn { spawned, type_path } => {
                push_str(&mut s, "prefab spawn rolled back: ");
                push_decimal(&mut s, *spawned as u64);
                push_str(&mut s, " entities were created before component `");
                push_str(&mut s, type_path.as_str());
                push_str(&mut s, "` (not a spawnable Component) aborted the spawn");
            },
        }
        assert(s@ =~= scene_error_text(*self));
        s
    }
}

/// What the registry says of one component of a prefab entity.
pub struct ComponentCheck {
    /// The component's reflection type path.
    pub type_path: String,
    /// The type is registered for reflection.
    pub registered: bool,
    /// The registered type can be inserted as an entity component.
    pub spawnable: bool,
}

/// The component is missing from the registry.
pub open spec fn unregistered() -> spec_fn(ComponentCheck) -> bool {
    |c: ComponentCheck| !c.registered
}

/// The component is registered but cannot be inserted.
pub open spec fn unspawnable() -> spec_fn(ComponentCheck) -> bool {
    |c: ComponentCheck| !c.spawnable
}

/// The first failing component in entity-major order: at `(e, c)`, and
/// nothing fails before it.
pub open spec fn is_first_failing(
    p: Seq<Seq<ComponentCheck>>,
    bad: spec_fn(ComponentCheck) -> bool,
    e: int,
    c: int,
) -> bool {
    &&& 0 <= e < p.len()
    &&& 0 <= c < p[e].len()
    &&& bad(p[e][c])
    &&& forall|e2: int, c2: int|
        0 <= e2 < p.len() && 0 <= c2 < p[e2].len() && #[trigger] bad(p[e2][c2]) ==> e < e2 || (e == e2
            && c <= c2)
}

/// No component of `p` fails `bad`.
pub open spec fn none_failing(p: Seq<Seq<ComponentCheck>>, bad: spec_fn(ComponentCheck) -> bool) -> bool {
    forall|e: int, c: int| 0 <= e < p.len() && 0 <= c < p[e].len() ==> !#[trigger] bad(p[e][c])
}

/// The views of the prefab's entities.
pub open spec fn checks_view(p: Seq<Vec<ComponentCheck>>) -> Seq<Seq<ComponentCheck>> {
    p.map_values(|v: Vec<ComponentCheck>| v@)
}

fn find_first(entities: &Vec<Vec<ComponentCheck>>, want_registered: bool) -> (r: Option<(usize, usize)>)
    ensures
        ({
            let p = checks_view(entities@);
            let bad = if want_registered { unregistered() } else { unspawnable() };
            match r {
                Some((e, c)) => is_first_failing(p, bad, e as int, c as int),
                None => none_failing(p, bad),
            }
        }),
{
    let ghost p = checks_view(entities@);
    let ghost bad = if want_registered { unregistered() } else { unspawnable() };
    let mut e: usize = 0;
    while e < entities.len()
        invariant
            e <= entities@.len(),
            p == checks_view(entities@),
            bad == (if want_registered { unregistered() } else { unspawnable() }),
            forall|e2: int, c2: int| 0 <= e2 < e && 0 <= c2 < p[e2].len() ==> !#[trigger] bad(p[e2][c2]),
        decreases entities@.len() - e,
    {
        let comps = &entities[e];
        let mut c: usize = 0;
        while c < comps.len()
            invariant
                e < entities@.len(),
                c <= comps@.len(),
                comps == &entities@[e as int],
                p == checks_view(entities@),
                bad == (if want_registered { unregistered() } else { unspawnable() }),
                forall|e2: int, c2: int| 0 <= e2 < e && 0 <= c2 < p[e2].len() ==> !#[trigger] bad(p[e2][c2]),
                forall|c2: int| 0 <= c2 < c ==> !#[trigger] bad(p[e as int][c2]),
            decreases comps@.len() - c,
        {
            let failing = if want_registered {
                !comps[c].registered
            } else {
                !comps[c].spawnable
            };
            if failing {
                proof {
                    assert(p[e as int][c as int] == comps@[c as int]);
                    assert forall|e2: int, c2: int|
                        0 <= e2 < p.len() && 0 <= c2 < p[e2].len() && #[trigger] bad(p[e2][c2]) implies e < e2 || (e == e2 && c <= c2) by {
                    }
                }
                return Some((e, c));
            }
            c = c + 1;
        }
        e = e + 1;
    }
    None
}

fn owned(s: &str) -> (r: String)
    ensures
        r@ == s@,
{
    let mut r = String::new();
    push_str(&mut r, s);
    r
}

/// Decide a prefab spawn before touching the world. Every component type is
/// checked against the registry first, so an unregistered type refuses the
/// whole prefab; then, in order, the first entity holding a component that
/// cannot be inserted aborts the spawn, and the entities before it are
/// reported as created and rolled back. Otherwise every entity spawns.
pub fn plan_spawn(entities: &Vec<Vec<ComponentCheck>>) -> (r: Result<usize, SceneError>)
    ensures
        ({
            let p = checks_view(entities@);
            if !none_failing(p, unregistered()) {
                exists|e: int, c: int|
                    #[trigger] is_first_failing(p, unregistered(), e, c) && (r matches Err(
                        SceneError::UnregisteredType { type_path },
                    ) && type_path@ == p[e][c].type_path@)
            } else if !none_failing(p, unspawnable()) {
                exists|e: int, c: int|
                    #[trigger] is_first_failing(p, unspawnable(), e, c) && (r matches Err(
                        SceneError::PartialSpawn { spawned, type_path },
                    ) && spawned == e && type_path@ == p[e][c].type_path@)
            } else {
                r == Ok::<usize, SceneError>(entities@.len() as usize)
            }
        }),
{
    match find_first(entities, true) {
        Some((e, c)) => {
            let path = owned(entities[e][c].type_path.as_str());
            return Err(SceneError::UnregisteredType { type_path: path });
        },
        None => {},
    }
    match find_first(entities, false) {
        Some((e, c)) => {
            let path = owned(entities[e][c].type_path.as_str());
            Err(SceneError::PartialSpawn { spawned: e, type_path: path })
        },
        None => Ok(entities.len()),
    }
}

} // verus!
