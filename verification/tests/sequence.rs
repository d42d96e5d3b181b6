use naia::sequence::{sequence_distance, sequence_greater_than, sequence_less_than};

#[test]
fn newer_within_half_the_circle() {
    assert!(sequence_greater_than(1, 0));
    assert!(sequence_greater_than(0x7fff, 0));
    assert!(!sequence_greater_than(0x8000, 0));
    assert!(!sequence_greater_than(0, 0));
    assert!(!sequence_greater_than(0, 1));
}

#[test]
fn newer_across_the_wrap() {
    assert!(sequence_greater_than(0, 0xffff));
    assert!(sequence_greater_than(5, 0xfff0));
    assert!(!sequence_greater_than(0xffff, 0));
    assert!(sequence_less_than(0xffff, 0));
    assert!(!sequence_less_than(0, 0xffff));
}

#[test]
fn distance_wraps() {
    assert_eq!(sequence_distance(3, 1), 2);
    assert_eq!(sequence_distance(1, 3), 0xfffe);
    assert_eq!(sequence_distance(0, 0xffff), 1);
    assert_eq!(sequence_distance(7, 7), 0);
}
