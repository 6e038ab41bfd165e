use std::collections::BTreeSet;

use omm::{filter_by_interest, EntitySnapshot, Vec3};

fn snap(id: u64) -> EntitySnapshot {
    EntitySnapshot {
        id,
        pos: Vec3::default(),
        yaw: 0.0f32.to_bits(),
        health: 100,
    }
}

#[test]
fn keeps_only_entities_in_interest() {
    let all = [snap(1), snap(2), snap(3), snap(4)];
    let interest: BTreeSet<u64> = [2, 4].into_iter().collect();
    let out = filter_by_interest(&all, &interest);
    assert_eq!(out.iter().map(|e| e.id).collect::<Vec<_>>(), [2, 4]);
}

#[test]
fn empty_interest_yields_nothing() {
    let all = [snap(1)];
    assert!(filter_by_interest(&all, &BTreeSet::new()).is_empty());
}

#[test]
fn filtering_preserves_input_order() {
    let all = [snap(9), snap(3), snap(7), snap(3)];
    let interest: BTreeSet<u64> = [3, 9].into_iter().collect();
    let out = filter_by_interest(&all, &interest);
    assert_eq!(out.iter().map(|e| e.id).collect::<Vec<_>>(), [9, 3, 3]);
}
