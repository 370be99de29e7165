use pi_series::compare::{compare_digits, compare_with_reference, Comparison, PI_1000};

#[test]
fn identical_texts() {
    assert_eq!(compare_digits("3.14", "3.14"), Comparison::Identical { length: 4 });
    assert_eq!(compare_digits("", ""), Comparison::Identical { length: 0 });
}

#[test]
fn first_difference_is_reported_with_both_characters() {
    assert_eq!(
        compare_digits("3.15", "3.14"),
        Comparison::FirstDifference { position: 3, found: '5', expected: '4' }
    );
    assert_eq!(
        compare_digits("2.14159", "3.14"),
        Comparison::FirstDifference { position: 0, found: '2', expected: '3' }
    );
    // a difference comes before a difference in length
    assert_eq!(
        compare_digits("3.24159", "3.14"),
        Comparison::FirstDifference { position: 2, found: '2', expected: '1' }
    );
}

#[test]
fn length_mismatch_is_reported_at_the_shorter_length() {
    assert_eq!(compare_digits("3.141", "3.14"), Comparison::LengthMismatch { position: 4 });
    assert_eq!(compare_digits("3.1", "3.14"), Comparison::LengthMismatch { position: 3 });
    assert_eq!(compare_digits("", "3"), Comparison::LengthMismatch { position: 0 });
}

#[test]
fn reference_has_a_thousand_characters() {
    assert_eq!(PI_1000.len(), 1000);
    assert!(PI_1000.starts_with("3.14159265358979323846"));
    assert!(PI_1000.ends_with("1642019"));
    assert_eq!(compare_with_reference(PI_1000), Comparison::Identical { length: 1000 });
    assert_eq!(compare_with_reference("3.14"), Comparison::LengthMismatch { position: 4 });
    assert_eq!(
        compare_with_reference("3.1416"),
        Comparison::FirstDifference { position: 5, found: '6', expected: '5' }
    );
}
