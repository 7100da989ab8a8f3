use gyoretu::util::{num_to_seqstr, zeros, str_eq};

#[test]
fn zeros_makes_runs_of_zero() {
    assert_eq!(zeros(0), "");
    assert_eq!(zeros(1), "0");
    assert_eq!(zeros(4), "0000");
}

#[test]
fn num_to_seqstr_pads_to_digit_width() {
    assert_eq!(num_to_seqstr(7, 5), "00007");
    assert_eq!(num_to_seqstr(42, 5), "00042");
    assert_eq!(num_to_seqstr(123, 5), "00123");
    assert_eq!(num_to_seqstr(1234, 5), "01234");
    assert_eq!(num_to_seqstr(12345, 5), "12345");
    assert_eq!(num_to_seqstr(0, 1), "0");
    assert_eq!(num_to_seqstr(9, 3), "009");
}

#[test]
fn num_to_seqstr_wide_numbers_keep_all_digits() {
    // Beyond the widest class only `digit - 5` zeros are put in front.
    assert_eq!(num_to_seqstr(123456, 5), "123456");
    assert_eq!(num_to_seqstr(123456, 7), "00123456");
    // A number whose class the digit count cannot hold falls to a wider class.
    assert_eq!(num_to_seqstr(42, 5), "00042");
    assert_eq!(num_to_seqstr(42, 2), "42");
}

#[test]
fn str_eq_compares_characters() {
    assert!(str_eq("abc", "abc"));
    assert!(!str_eq("abc", "abd"));
    assert!(!str_eq("", "a"));
}

#[test]
fn num_to_seqstr_width_matches_digit() {
    for (num, digit) in [(0u32, 1u32), (9, 4), (10, 2), (99, 6), (100, 3), (9999, 4), (99999, 5), (12, 9)] {
        assert_eq!(num_to_seqstr(num, digit).chars().count(), digit as usize);
    }
}
