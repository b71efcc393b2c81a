use string_sum::{sum_as_string, SumError};

#[test]
fn zero_plus_zero_is_the_digit_zero() {
    assert_eq!(sum_as_string(0, 0), Ok(String::from("0")));
}

#[test]
fn two_plus_three_is_five() {
    assert_eq!(sum_as_string(2, 3), Ok(String::from("5")));
}

#[test]
fn one_past_the_largest_word_overflows() {
    assert_eq!(sum_as_string(usize::MAX, 1), Err(SumError::Overflow));
}

#[test]
fn overflow_is_reported_for_either_order() {
    assert_eq!(sum_as_string(1, usize::MAX), Err(SumError::Overflow));
    assert_eq!(sum_as_string(usize::MAX, usize::MAX), Err(SumError::Overflow));
}

#[test]
fn the_largest_word_itself_is_written() {
    let largest = usize::MAX.to_string();
    assert_eq!(sum_as_string(usize::MAX, 0), Ok(largest.clone()));
    assert_eq!(sum_as_string(0, usize::MAX), Ok(largest.clone()));
    assert_eq!(sum_as_string(usize::MAX - 1, 1), Ok(largest.clone()));
    if usize::BITS == 64 {
        assert_eq!(largest, "18446744073709551615");
    }
}

#[test]
fn halves_meet_at_the_boundary() {
    let half = usize::MAX / 2;
    assert_eq!(sum_as_string(half, half + 1), Ok(usize::MAX.to_string()));
    assert_eq!(sum_as_string(half + 1, half + 1), Err(SumError::Overflow));
}

#[test]
fn carries_add_a_digit() {
    assert_eq!(sum_as_string(9, 1), Ok(String::from("10")));
    assert_eq!(sum_as_string(99, 1), Ok(String::from("100")));
    assert_eq!(sum_as_string(1, 999), Ok(String::from("1000")));
    assert_eq!(sum_as_string(5, 5), Ok(String::from("10")));
}

#[test]
fn digits_come_most_significant_first() {
    assert_eq!(sum_as_string(1000, 234), Ok(String::from("1234")));
    assert_eq!(sum_as_string(123456, 789), Ok(String::from("124245")));
    assert_eq!(sum_as_string(4000000000, 294967295), Ok(String::from("4294967295")));
}

#[test]
fn zeros_inside_and_at_the_end_are_kept() {
    assert_eq!(sum_as_string(100, 1), Ok(String::from("101")));
    assert_eq!(sum_as_string(1000, 20), Ok(String::from("1020")));
    assert_eq!(sum_as_string(7000, 0), Ok(String::from("7000")));
}

#[test]
fn the_text_is_the_decimal_numeral_of_the_sum() {
    let samples: [usize; 12] = [0, 1, 9, 10, 11, 99, 100, 101, 4095, 65535, 99999, 1000000];
    for &a in samples.iter() {
        for &b in samples.iter() {
            assert_eq!(sum_as_string(a, b), Ok((a + b).to_string()));
        }
    }
}

#[test]
fn the_order_of_the_numbers_does_not_matter() {
    let samples: [usize; 9] =
        [0, 1, 9, 10, 12345, 99999, usize::MAX / 2, usize::MAX - 1, usize::MAX];
    for &a in samples.iter() {
        for &b in samples.iter() {
            assert_eq!(sum_as_string(a, b), sum_as_string(b, a));
        }
    }
}

#[test]
fn it_fails_exactly_when_the_sum_does_not_fit() {
    let samples: [usize; 7] = [0, 1, 2, usize::MAX / 2, usize::MAX - 2, usize::MAX - 1, usize::MAX];
    for &a in samples.iter() {
        for &b in samples.iter() {
            match a.checked_add(b) {
                Some(sum) => assert_eq!(sum_as_string(a, b), Ok(sum.to_string())),
                None => assert_eq!(sum_as_string(a, b), Err(SumError::Overflow)),
            }
        }
    }
}

#[test]
fn the_text_reads_back_as_the_sum() {
    let samples: [usize; 8] = [0, 3, 10, 250, 4096, 70000, 123456789, usize::MAX / 3];
    for &a in samples.iter() {
        for &b in samples.iter() {
            let text = sum_as_string(a, b).unwrap();
            assert!(text.chars().all(|c| c.is_ascii_digit()));
            assert!(text.len() == 1 || !text.starts_with('0'));
            assert_eq!(text.parse::<usize>(), Ok(a + b));
        }
    }
}
