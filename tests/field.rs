use zki_sieve::field::{compare_values, is_version_string, u64_to_decimal, value_to_decimal};

#[test]
fn values_read_little_endian_in_decimal() {
    assert_eq!(value_to_decimal(&vec![0, 1]), "256");
    assert_eq!(value_to_decimal(&vec![101, 0, 0, 0]), "101");
    assert_eq!(value_to_decimal(&vec![]), "0");
    assert_eq!(u64_to_decimal(0), "0");
    assert_eq!(u64_to_decimal(18446744073709551615), "18446744073709551615");
}

#[test]
fn values_compare_as_numbers() {
    assert_eq!(compare_values(&vec![0, 1], &vec![255]), 1);
    assert_eq!(compare_values(&vec![5, 0, 0], &vec![5]), 0);
    assert_eq!(compare_values(&vec![], &vec![1]), -1);
}

#[test]
fn version_strings() {
    assert!(is_version_string("1.2.3"));
    assert!(is_version_string("10.0.42"));
    assert!(!is_version_string("1.2"));
    assert!(!is_version_string("1x2x3"));
    assert!(!is_version_string("1.2.3\n"));
    assert!(!is_version_string("a.b.c"));
}
