use obs_pipeline::fibonacci::{fibonacci_sequence, fibonacci_sequence_recursive};

#[test]
fn recursive_sixteenth_is_987() {
    assert_eq!(987_u32, fibonacci_sequence_recursive(16, 0, 1));
}

#[test]
fn iterative_sixteenth_is_987() {
    assert_eq!(987_u16, fibonacci_sequence(16));
}

#[test]
fn iterative_small_values() {
    let expected: [u16; 10] = [1, 1, 1, 2, 3, 5, 8, 13, 21, 34];
    for (n, e) in expected.iter().enumerate() {
        assert_eq!(fibonacci_sequence(n as u16), *e, "n = {}", n);
    }
}

#[test]
fn iterative_largest_that_fits() {
    assert_eq!(fibonacci_sequence(24), 46368);
}

#[test]
fn recursive_with_other_seeds() {
    // 3, 5, 8, 13, 21
    assert_eq!(fibonacci_sequence_recursive(1, 3, 5), 5);
    assert_eq!(fibonacci_sequence_recursive(2, 3, 5), 8);
    assert_eq!(fibonacci_sequence_recursive(4, 3, 5), 21);
}

#[test]
fn both_routines_agree() {
    for n in 1..=24u16 {
        assert_eq!(fibonacci_sequence_recursive(n as u32, 0, 1), fibonacci_sequence(n) as u32);
    }
}
