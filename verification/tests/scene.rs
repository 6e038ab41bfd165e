use omm::{plan_spawn, ComponentCheck, EngineScenePlugin, SceneError};

#[test]
fn parse_error_reads_cleanly() {
    let err = SceneError::Parse("unexpected `}`".to_owned());
    assert_eq!(err.to_string(), "failed to parse prefab: unexpected `}`");
}

#[test]
fn unregistered_type_names_the_type() {
    let err = SceneError::UnregisteredType {
        type_path: "game::Health".to_owned(),
    };
    assert!(err.to_string().contains("game::Health"));
    assert!(err.to_string().contains("not registered"));
}

#[test]
fn partial_spawn_reports_count_and_names_the_type() {
    let err = SceneError::PartialSpawn {
        spawned: 3,
        type_path: "game::Marker".to_owned(),
    };
    let msg = err.to_string();
    assert!(msg.contains("3 entities"), "got: {msg}");
    assert!(msg.contains("game::Marker"), "got: {msg}");
    assert!(msg.contains("rolled back"), "got: {msg}");
}

fn check(path: &str, registered: bool, spawnable: bool) -> ComponentCheck {
    ComponentCheck { type_path: path.to_owned(), registered, spawnable }
}

#[test]
fn empty_prefab_plans_no_entities() {
    assert_eq!(plan_spawn(&vec![]), Ok(0));
    let _plugin = EngineScenePlugin;
}

#[test]
fn valid_prefab_spawns_every_entity() {
    let prefab = vec![
        vec![check("game::Health", true, true), check("game::Name", true, true)],
        vec![],
        vec![check("game::Marker", true, true)],
    ];
    assert_eq!(plan_spawn(&prefab), Ok(3));
}

#[test]
fn unregistered_component_is_refused_before_anything_spawns() {
    // The unspawnable component comes first, yet the registry check wins.
    let prefab = vec![
        vec![check("game::Plain", true, false)],
        vec![check("game::Health", true, true), check("game::Ghost", false, false)],
        vec![check("game::Other", false, true)],
    ];
    assert_eq!(
        plan_spawn(&prefab),
        Err(SceneError::UnregisteredType { type_path: "game::Ghost".to_owned() })
    );
}

#[test]
fn unspawnable_component_rolls_back_earlier_entities() {
    let prefab = vec![
        vec![check("game::Health", true, true)],
        vec![check("game::Name", true, true)],
        vec![check("game::Health", true, true), check("game::Plain", true, false)],
        vec![check("game::Later", true, false)],
    ];
    assert_eq!(
        plan_spawn(&prefab),
        Err(SceneError::PartialSpawn { spawned: 2, type_path: "game::Plain".to_owned() })
    );
    let msg = plan_spawn(&prefab).unwrap_err().to_string();
    assert_eq!(
        msg,
        "prefab spawn rolled back: 2 entities were created before component `game::Plain` (not a spawnable Component) aborted the spawn"
    );
}
