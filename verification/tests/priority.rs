use omm::{fill_budget, Candidate, EntitySnapshot, Priority, Vec3};

fn cand(id: u64, p: Priority) -> Candidate {
    Candidate::new(
        EntitySnapshot {
            id,
            pos: Vec3::default(),
            yaw: 0.0f32.to_bits(),
            health: 100,
        },
        p,
    )
}

#[test]
fn budget_is_never_exceeded() {
    let cs = vec![
        cand(1, Priority::Far),
        cand(2, Priority::SelfPlayer),
        cand(3, Priority::Near),
    ];
    let out = fill_budget(cs, EntitySnapshot::WIRE_SIZE * 2);
    assert_eq!(out.len(), 2);
}

#[test]
fn highest_priority_wins_under_pressure() {
    let cs = vec![cand(1, Priority::Far), cand(2, Priority::SelfPlayer)];
    let out = fill_budget(cs, EntitySnapshot::WIRE_SIZE);
    assert_eq!(out, vec![cand(2, Priority::SelfPlayer).snap]);
}

#[test]
fn zero_budget_sends_nothing() {
    assert!(fill_budget(vec![cand(1, Priority::SelfPlayer)], 0).is_empty());
}

#[test]
fn ties_break_by_id_and_output_is_id_sorted() {
    let cs = vec![
        cand(9, Priority::Near),
        cand(4, Priority::Combat),
        cand(7, Priority::Near),
        cand(5, Priority::Near),
        cand(1, Priority::Far),
    ];
    let out = fill_budget(cs, EntitySnapshot::WIRE_SIZE * 3 + 10);
    assert_eq!(out.iter().map(|e| e.id).collect::<Vec<_>>(), [4, 5, 7]);
}

#[test]
fn everything_fits_a_large_budget() {
    let cs = vec![cand(3, Priority::Far), cand(1, Priority::Near)];
    let out = fill_budget(cs, 10_000);
    assert_eq!(out.iter().map(|e| e.id).collect::<Vec<_>>(), [1, 3]);
}

#[test]
fn priority_ranks_follow_the_send_order() {
    assert_eq!(Priority::SelfPlayer.rank(), 0);
    assert_eq!(Priority::Combat.rank(), 1);
    assert_eq!(Priority::Near.rank(), 2);
    assert_eq!(Priority::Far.rank(), 3);
    assert!(Priority::SelfPlayer < Priority::Far);
}

#[test]
fn equal_priority_and_id_keep_input_order() {
    let mut first = cand(4, Priority::Near);
    first.snap.health = 10;
    let mut second = cand(4, Priority::Near);
    second.snap.health = 20;
    let out = fill_budget(vec![first, second], EntitySnapshot::WIRE_SIZE);
    assert_eq!(out, vec![first.snap]);
}
