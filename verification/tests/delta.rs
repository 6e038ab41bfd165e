use omm::{apply_delta, diff, EntitySnapshot, SnapshotFrame, Tick, Vec3};

fn snap(id: u64, x: f32, hp: u32) -> EntitySnapshot {
    EntitySnapshot {
        id,
        pos: Vec3 {
            x: x.to_bits(),
            y: 0.0f32.to_bits(),
            z: 0.0f32.to_bits(),
        },
        yaw: 0.0f32.to_bits(),
        health: hp,
    }
}

#[test]
fn delta_captures_add_change_remove() {
    let base = SnapshotFrame::new(Tick(1), 0, vec![snap(1, 0.0, 100), snap(2, 0.0, 100)]);
    let cur = SnapshotFrame::new(Tick(2), 7, vec![snap(2, 0.0, 80), snap(3, 5.0, 100)]);
    let d = diff(&base, &cur);
    assert_eq!(d.removed, vec![1]);
    assert_eq!(d.changed.iter().map(|e| e.id).collect::<Vec<_>>(), [2, 3]);
    assert_eq!(d.last_input_seq, 7);
}

#[test]
fn unchanged_entity_is_omitted() {
    let base = SnapshotFrame::new(Tick(1), 0, vec![snap(1, 0.0, 100)]);
    let cur = SnapshotFrame::new(Tick(2), 0, vec![snap(1, 0.0, 100)]);
    assert!(diff(&base, &cur).changed.is_empty());
}

/// A small deterministic generator standing in for random inputs.
fn lcg(state: &mut u64) -> u64 {
    *state = state.wrapping_mul(6364136223846793005).wrapping_add(1442695040888963407);
    *state >> 33
}

#[test]
fn apply_of_diff_reconstructs_target() {
    let mut seed = 42u64;
    for _ in 0..500 {
        let mut base_unique = std::collections::BTreeMap::new();
        for _ in 0..(lcg(&mut seed) % 8) {
            let id = lcg(&mut seed) % 8;
            base_unique.insert(id, snap(id, 1.0, 50));
        }
        let base = SnapshotFrame::new(Tick(1), 0, base_unique.into_values().collect());
        let mut cur_unique = std::collections::BTreeMap::new();
        for _ in 0..(lcg(&mut seed) % 8) {
            let id = lcg(&mut seed) % 8;
            let x = (lcg(&mut seed) % 10) as f32;
            let hp = (lcg(&mut seed) % 200) as u32;
            cur_unique.insert(id, snap(id, x, hp));
        }
        let current = SnapshotFrame::new(Tick(2), 3, cur_unique.into_values().collect());
        let d = diff(&base, &current);
        assert_eq!(apply_delta(&base, &d), current);
    }
}

#[test]
fn delta_records_both_ticks() {
    let base = SnapshotFrame::new(Tick(4), 0, vec![]);
    let cur = SnapshotFrame::new(Tick(9), 2, vec![snap(1, 0.0, 1)]);
    let d = diff(&base, &cur);
    assert_eq!(d.tick, Tick(9));
    assert_eq!(d.baseline_tick, Tick(4));
    assert_eq!(d.changed.len(), 1);
    assert!(d.removed.is_empty());
}

#[test]
fn apply_replaces_and_inserts_by_id() {
    let base = SnapshotFrame::new(Tick(1), 0, vec![snap(1, 0.0, 10), snap(5, 0.0, 50)]);
    let delta = omm::DeltaFrame {
        tick: Tick(2),
        baseline_tick: Tick(1),
        last_input_seq: 4,
        changed: vec![snap(3, 0.0, 30), snap(5, 1.0, 55)],
        removed: vec![1],
    };
    let r = apply_delta(&base, &delta);
    assert_eq!(r.tick, Tick(2));
    assert_eq!(r.last_input_seq, 4);
    assert_eq!(
        r.entities.iter().map(|e| (e.id, e.health)).collect::<Vec<_>>(),
        [(3, 30), (5, 55)]
    );
}

#[test]
fn zero_sign_change_is_not_resent() {
    let base = SnapshotFrame::new(Tick(1), 0, vec![snap(1, 0.0, 10)]);
    let cur = SnapshotFrame::new(Tick(2), 0, vec![snap(1, -0.0, 10)]);
    let d = diff(&base, &cur);
    assert!(d.changed.is_empty());
    let r = apply_delta(&base, &d);
    assert!(r.entities[0].state_eq(&cur.entities[0]));
}

#[test]
fn repeated_changed_id_keeps_the_last_version() {
    let base = SnapshotFrame::new(Tick(1), 0, vec![snap(2, 0.0, 20)]);
    let delta = omm::DeltaFrame {
        tick: Tick(3),
        baseline_tick: Tick(1),
        last_input_seq: 0,
        changed: vec![snap(7, 0.0, 1), snap(7, 0.0, 2), snap(2, 0.0, 21)],
        removed: vec![],
    };
    let r = apply_delta(&base, &delta);
    assert_eq!(
        r.entities.iter().map(|e| (e.id, e.health)).collect::<Vec<_>>(),
        [(2, 21), (7, 2)]
    );
}
