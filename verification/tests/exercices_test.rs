use exercices::cubes::sum_cubes;
use exercices::hamming::hamming_distance;
use exercices::hamming::is_equals_len;
use exercices::hamming::PreconditionViolation;
use exercices::narcissistic::is_narcissistic;

#[test]
fn is_narcissistic_test() {
    assert_eq!(is_narcissistic(1), true);
    assert_eq!(is_narcissistic(2), true);
    assert_eq!(is_narcissistic(3), true);
    assert_eq!(is_narcissistic(4), true);
    assert_eq!(is_narcissistic(5), true);
    assert_eq!(is_narcissistic(153), true);
    assert_eq!(is_narcissistic(154), false);
    assert_eq!(is_narcissistic(370), true);
    assert_eq!(is_narcissistic(371), true);
    assert_eq!(is_narcissistic(407), true);
    assert_eq!(is_narcissistic(408), false);
    assert_eq!(is_narcissistic(9926315), true);
}

#[test]
fn narcissistic_single_digits() {
    for n in 0..=9u32 {
        assert!(is_narcissistic(n));
    }
}

#[test]
fn narcissistic_zero_and_large() {
    assert!(is_narcissistic(0));
    assert!(!is_narcissistic(10));
    assert!(!is_narcissistic(100));
    assert!(is_narcissistic(8208));
    assert!(!is_narcissistic(u32::MAX));
}

#[test]
fn sum_cubes_examples() {
    assert_eq!(sum_cubes(2), 9);
    assert_eq!(sum_cubes(3), 36);
}

#[test]
fn sum_cubes_edges() {
    assert_eq!(sum_cubes(0), 0);
    assert_eq!(sum_cubes(1), 1);
    assert_eq!(sum_cubes(361), 4269446281);
}

#[test]
fn sum_cubes_recurrence_examples() {
    for n in 1..=20u32 {
        assert_eq!(sum_cubes(n), sum_cubes(n - 1) + n * n * n);
    }
}

#[test]
fn hamming_distance_example() {
    let d = hamming_distance(String::from("karolin"), String::from("kathrin"));
    assert_eq!(d, Ok(3));
}

#[test]
fn hamming_distance_symmetry_examples() {
    let d1 = hamming_distance(String::from("karolin"), String::from("kathrin"));
    let d2 = hamming_distance(String::from("kathrin"), String::from("karolin"));
    assert_eq!(d1, d2);
    let e1 = hamming_distance(String::from("abcd"), String::from("dcba"));
    let e2 = hamming_distance(String::from("dcba"), String::from("abcd"));
    assert_eq!(e1, e2);
    assert_eq!(e1, Ok(4));
}

#[test]
fn hamming_distance_identity_and_empty() {
    assert_eq!(
        hamming_distance(String::from("karolin"), String::from("karolin")),
        Ok(0)
    );
    assert_eq!(hamming_distance(String::new(), String::new()), Ok(0));
}

#[test]
fn hamming_distance_bounds_example() {
    let d = hamming_distance(String::from("abcde"), String::from("vwxyz"));
    assert_eq!(d, Ok(5));
}

#[test]
fn hamming_distance_length_mismatch() {
    let d = hamming_distance(String::from("karolin"), String::from("kath"));
    assert_eq!(d, Err(PreconditionViolation::LengthMismatch));
    let e = hamming_distance(String::new(), String::from("a"));
    assert_eq!(e, Err(PreconditionViolation::LengthMismatch));
}

#[test]
fn hamming_distance_counts_characters_not_bytes() {
    let d = hamming_distance(String::from("naïve"), String::from("naive"));
    assert_eq!(d, Ok(1));
}

#[test]
fn is_equals_len_examples() {
    assert!(is_equals_len(
        &String::from("karolin"),
        &String::from("kathrin")
    ));
    assert!(!is_equals_len(&String::from("karolin"), &String::from("ka")));
    assert!(is_equals_len(&String::new(), &String::new()));
    assert!(is_equals_len(&String::from("éé"), &String::from("ab")));
}
