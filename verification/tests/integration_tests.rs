use pafcheck::fasta_reader::MultiFastaReader;
use pafcheck::paf_parser::PafRecord;
use pafcheck::validator::{validate_record, RecordError};

fn fasta_text(sequences: &[(&str, &str)]) -> String {
    let mut text = String::new();
    for (name, seq) in sequences {
        text.push('>');
        text.push_str(name);
        text.push('\n');
        text.push_str(seq);
        text.push('\n');
    }
    text
}

fn record_error_text(e: &RecordError) -> String {
    match e {
        RecordError::Invalid(v) => v.message(),
        other => format!("{:?}", other),
    }
}

fn run_validation(
    query_fasta_content: &[(&str, &str)],
    target_fasta_content: &[(&str, &str)],
    paf_content: &[&str],
    error_mode: &str,
) -> Result<(), String> {
    let query_text = fasta_text(query_fasta_content);
    let target_text = fasta_text(target_fasta_content);
    let fasta_reader = MultiFastaReader::from_strings(&query_text, &target_text)
        .map_err(|e| format!("{:?}", e))?;

    for line in paf_content {
        let record = PafRecord::from_line(line).map_err(|e| format!("{:?}", e))?;
        let mut output: Vec<String> = Vec::new();
        validate_record(&record, &fasta_reader, error_mode, &mut output)
            .map_err(|e| record_error_text(&e))?;
    }

    Ok(())
}

#[test]
fn test_perfect_match() {
    let query_fasta_content = [("query1", "ATCGATCGATCG")];
    let target_fasta_content = [("target1", "ATCGATCGATCG")];
    let paf_content = ["query1\t12\t0\t12\t+\ttarget1\t12\t0\t12\t12\t12\t60\tcg:Z:12="];

    run_validation(&query_fasta_content, &target_fasta_content, &paf_content, "report").unwrap();
    println!("Test completed successfully. No errors expected.");
}

#[test]
fn integration_tests_test_mismatch_detection() {
    let query_fasta_content = [("query1", "ATCGATCGATCG")];
    let target_fasta_content = [("target1", "ATCGATTGATCG")];
    let paf_content = ["query1\t12\t0\t12\t+\ttarget1\t12\t0\t12\t11\t12\t55\tcg:Z:5=1X6="];

    let result = run_validation(
        &query_fasta_content,
        &target_fasta_content,
        &paf_content,
        "report",
    );
    assert!(result.is_ok(), "Expected successful validation, but got an error");
    println!("Test completed successfully. Mismatch detected and reported as expected.");
}

#[test]
fn integration_tests_test_false_match_detection() {
    let query_fasta_content = [("query1", "ATCGATCGATCG")];
    let target_fasta_content = [("target1", "ATCGATTGATCG")];
    let paf_content = ["query1\t12\t0\t12\t+\ttarget1\t12\t0\t12\t12\t12\t60\tcg:Z:12="];

    let result = run_validation(
        &query_fasta_content,
        &target_fasta_content,
        &paf_content,
        "omit",
    );
    assert!(result.is_err(), "Expected an error due to false match");
    if let Err(error_message) = result {
        assert!(
            error_message.contains("CIGAR mismatch at operation 0"),
            "Unexpected error message: {}",
            error_message
        );
    }
    println!("Test completed successfully. Error detected as expected.");
}

#[test]
fn integration_tests_test_false_mismatch_detection() {
    let query_fasta_content = [("query1", "ATCGATCGATCG")];
    let target_fasta_content = [("target1", "ATCGATCGATCG")];
    let paf_content = ["query1\t12\t0\t12\t+\ttarget1\t12\t0\t12\t11\t12\t55\tcg:Z:5=1X6="];

    let result = run_validation(
        &query_fasta_content,
        &target_fasta_content,
        &paf_content,
        "omit",
    );
    assert!(result.is_err(), "Expected an error due to false mismatch");
    if let Err(error_message) = result {
        assert!(
            error_message.contains("CIGAR mismatch at operation 1"),
            "Unexpected error message: {}",
            error_message
        );
    }
    println!("Test completed successfully. Error detected as expected.");
}

#[test]
fn test_insertion() {
    let query_fasta_content = [("query1", "ATCGATACGATCG")];
    let target_fasta_content = [("target1", "ATCGATCGATCG")];
    let paf_content = ["query1\t13\t0\t13\t+\ttarget1\t12\t0\t12\t12\t13\t60\tcg:Z:6=1I6="];

    run_validation(&query_fasta_content, &target_fasta_content, &paf_content, "report").unwrap();
    println!("Test completed successfully. No errors expected.");
}

#[test]
fn test_deletion() {
    let query_fasta_content = [("query1", "ATCGATCGATCG")];
    let target_fasta_content = [("target1", "ATCGATTACGATCG")];
    let paf_content = ["query1\t12\t0\t12\t+\ttarget1\t14\t0\t14\t12\t14\t60\tcg:Z:6=2D6="];

    let result = run_validation(
        &query_fasta_content,
        &target_fasta_content,
        &paf_content,
        "report",
    );
    assert!(result.is_ok(), "Expected no errors, but got: {:?}", result);
}
