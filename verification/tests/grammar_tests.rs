use pafcheck::cigar_parser::{parse_cigar, CigarOp, GrammarError};

#[test]
fn parses_all_four_operations_with_their_counts() {
    let ops = parse_cigar("5=1X2I3D").unwrap();
    assert_eq!(
        ops,
        vec![
            CigarOp::Match(5),
            CigarOp::Mismatch(1),
            CigarOp::Insertion(2),
            CigarOp::Deletion(3),
        ]
    );
}

#[test]
fn multi_digit_counts_accumulate() {
    let ops = parse_cigar("128=40I7D").unwrap();
    assert_eq!(
        ops,
        vec![CigarOp::Match(128), CigarOp::Insertion(40), CigarOp::Deletion(7)]
    );
}

#[test]
fn empty_input_is_an_empty_operation_sequence() {
    assert_eq!(parse_cigar("").unwrap(), vec![]);
}

#[test]
fn zero_length_runs_are_accepted() {
    assert_eq!(parse_cigar("0=").unwrap(), vec![CigarOp::Match(0)]);
}

#[test]
fn rejects_a_letter_outside_the_alphabet() {
    assert_eq!(parse_cigar("5Y"), Err(GrammarError::UnknownOperator('Y')));
    assert_eq!(parse_cigar("3=2M1="), Err(GrammarError::UnknownOperator('M')));
    assert_eq!(parse_cigar("1x"), Err(GrammarError::UnknownOperator('x')));
}

#[test]
fn rejects_a_run_with_no_preceding_digits() {
    assert_eq!(parse_cigar("="), Err(GrammarError::InvalidCount));
    assert_eq!(parse_cigar("4=X"), Err(GrammarError::InvalidCount));
    assert_eq!(parse_cigar("X4="), Err(GrammarError::InvalidCount));
}

#[test]
fn missing_count_is_reported_before_the_unknown_letter() {
    assert_eq!(parse_cigar("Q"), Err(GrammarError::InvalidCount));
}

#[test]
fn rejects_a_count_that_overflows() {
    assert_eq!(
        parse_cigar("18446744073709551616="),
        Err(GrammarError::InvalidCount)
    );
    assert_eq!(
        parse_cigar("18446744073709551615=").unwrap(),
        vec![CigarOp::Match(u64::MAX)]
    );
}

#[test]
fn rejects_trailing_digits_with_no_operator() {
    assert_eq!(parse_cigar("5"), Err(GrammarError::TruncatedOperator));
    assert_eq!(parse_cigar("3=12"), Err(GrammarError::TruncatedOperator));
}

#[test]
fn the_leftmost_offense_wins() {
    // The unknown letter stands before the truncated tail.
    assert_eq!(parse_cigar("2Z9"), Err(GrammarError::UnknownOperator('Z')));
}
