use omm::{EntitySnapshot, SnapshotFrame, Tick, Vec3};

fn snap(id: u64, x: f32, hp: u32) -> EntitySnapshot {
    EntitySnapshot {
        id,
        pos: Vec3 {
            x: x.to_bits(),
            y: 0.0f32.to_bits(),
            z: 0.0f32.to_bits(),
        },
        yaw: 0.0f32.to_bits(),
        health: hp,
    }
}

#[test]
fn new_sorts_entities_by_id() {
    let f = SnapshotFrame::new(Tick(1), 0, vec![snap(3, 0.0, 1), snap(1, 0.0, 1)]);
    assert_eq!(f.entities.iter().map(|e| e.id).collect::<Vec<_>>(), [1, 3]);
}

#[test]
fn get_binary_searches() {
    let f = SnapshotFrame::new(Tick(1), 0, vec![snap(1, 0.0, 1), snap(9, 0.0, 1)]);
    assert_eq!(f.get(9).map(|e| e.id), Some(9));
    assert!(f.get(4).is_none());
}

#[test]
fn state_eq_detects_change() {
    assert!(snap(1, 5.0, 100).state_eq(&snap(1, 5.0, 100)));
    assert!(!snap(1, 5.0, 100).state_eq(&snap(1, 5.0, 99)));
    assert!(!snap(1, 5.0, 100).state_eq(&snap(1, 6.0, 100)));
}

#[test]
fn state_eq_compares_positions_as_floats() {
    // 0.0 == -0.0 as floats; NaN equals nothing, not even itself.
    assert!(snap(1, 0.0, 1).state_eq(&snap(1, -0.0, 1)));
    assert!(!snap(1, f32::NAN, 1).state_eq(&snap(1, f32::NAN, 1)));
}

#[test]
fn new_keeps_every_entity_and_the_header() {
    let f = SnapshotFrame::new(
        Tick(7),
        11,
        vec![snap(5, 0.0, 1), snap(2, 0.0, 2), snap(9, 0.0, 3), snap(2, 1.0, 4)],
    );
    assert_eq!(f.tick, Tick(7));
    assert_eq!(f.last_input_seq, 11);
    assert_eq!(
        f.entities.iter().map(|e| (e.id, e.health)).collect::<Vec<_>>(),
        [(2, 2), (2, 4), (5, 1), (9, 3)]
    );
}

#[test]
fn wire_size_counts_every_entity() {
    let f = SnapshotFrame::new(Tick(1), 0, vec![snap(1, 0.0, 1), snap(2, 0.0, 1), snap(3, 0.0, 1)]);
    assert_eq!(f.wire_size(), 3 * EntitySnapshot::WIRE_SIZE);
    assert_eq!(EntitySnapshot::WIRE_SIZE, 26);
    assert_eq!(SnapshotFrame::default().wire_size(), 0);
}

#[test]
fn entities_with_the_same_id_keep_their_input_order() {
    let f = SnapshotFrame::new(
        Tick(2),
        5,
        vec![snap(4, 0.0, 1), snap(2, 0.0, 10), snap(4, 0.0, 2), snap(2, 0.0, 20), snap(1, 0.0, 0)],
    );
    let got: Vec<(u64, u32)> = f.entities.iter().map(|e| (e.id, e.health)).collect();
    assert_eq!(got, [(1, 0), (2, 10), (2, 20), (4, 1), (4, 2)]);
    assert_eq!(f.tick, Tick(2));
    assert_eq!(f.last_input_seq, 5);
}
