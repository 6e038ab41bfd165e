use omm::{seq_greater_than, AckTracker};

#[test]
fn newer_across_wrap_boundary() {
    assert!(seq_greater_than(1, 65535));
    assert!(!seq_greater_than(65535, 1));
    assert!(seq_greater_than(100, 99));
    assert!(!seq_greater_than(99, 100));
}

#[test]
fn tracker_acks_in_order() {
    let mut t = AckTracker::new();
    t.record(1);
    t.record(2);
    t.record(3);
    assert_eq!(t.latest(), 3);
    assert!(t.is_acked(3));
    assert!(t.is_acked(2));
    assert!(t.is_acked(1));
    assert!(!t.is_acked(4));
}

#[test]
fn tracker_handles_gaps_and_late_arrivals() {
    let mut t = AckTracker::new();
    t.record(1);
    t.record(3); // 2 missing
    assert!(t.is_acked(3));
    assert!(t.is_acked(1));
    assert!(!t.is_acked(2));
    t.record(2); // arrives late
    assert!(t.is_acked(2));
}

#[test]
fn ack_bits_expose_received_window() {
    let mut t = AckTracker::new();
    t.record(10);
    t.record(11); // 11 is latest; bit 0 == (latest - 1) == 10 received.
    assert_eq!(t.ack_bits() & 1, 1);
    t.record(13); // gap at 12; window shifts, 11 now two behind.
    assert_eq!(t.latest(), 13);
    assert_eq!(t.ack_bits() & 0b10, 0b10); // bit 1 == 11 received
    assert_eq!(t.ack_bits() & 0b1, 0); // bit 0 == 12 missing
}

#[test]
fn fresh_tracker_acks_nothing() {
    let t = AckTracker::new();
    assert!(!t.is_acked(0));
    assert!(!t.is_acked(65535));
    assert_eq!(t.ack_bits(), 0);
}

#[test]
fn half_space_difference_counts_as_newer_one_way() {
    assert!(seq_greater_than(32768, 0));
    assert!(!seq_greater_than(0, 32768));
    assert!(!seq_greater_than(5, 5));
}

#[test]
fn recording_a_newer_seq_keeps_earlier_acks_in_window() {
    let mut t = AckTracker::new();
    t.record(65534);
    t.record(65535);
    t.record(1); // wraps
    assert_eq!(t.latest(), 1);
    assert!(t.is_acked(65535));
    assert!(t.is_acked(65534));
    assert!(!t.is_acked(0));
}

#[test]
fn a_jump_past_the_window_forgets_old_acks() {
    let mut t = AckTracker::new();
    t.record(1);
    t.record(40);
    assert!(t.is_acked(40));
    assert!(!t.is_acked(1));
    assert_eq!(t.ack_bits(), 0);
}

#[test]
fn too_old_arrival_is_not_acked() {
    let mut t = AckTracker::new();
    t.record(100);
    t.record(10); // 90 behind: outside the window
    assert_eq!(t.latest(), 100);
    assert!(!t.is_acked(10));
    assert!(t.is_acked(100));
}

#[test]
fn duplicate_record_changes_nothing() {
    let mut t = AckTracker::new();
    t.record(7);
    t.record(8);
    let bits = t.ack_bits();
    t.record(8);
    t.record(7);
    assert_eq!(t.ack_bits(), bits);
    assert_eq!(t.latest(), 8);
}
