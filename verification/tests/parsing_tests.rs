use pafcheck::fasta_reader::{parse_fasta, FetchError, MultiFastaReader};
use pafcheck::paf_parser::{PafError, PafRecord};
use pafcheck::validator::{reverse_complement, uppercase_window, walk};
use pafcheck::cigar_parser::parse_cigar;

#[test]
fn from_line_reads_every_field() {
    let line = "q\t100\t5\t50\t+\tt\t200\t10\t55\t40\t45\t60\tcg:Z:5=";
    let rec = PafRecord::from_line(line).unwrap();
    assert_eq!(rec.query_name, "q");
    assert_eq!(rec.query_length, 100);
    assert_eq!(rec.query_start, 5);
    assert_eq!(rec.query_end, 50);
    assert_eq!(rec.strand, '+');
    assert_eq!(rec.target_name, "t");
    assert_eq!(rec.target_length, 200);
    assert_eq!(rec.target_start, 10);
    assert_eq!(rec.target_end, 55);
    assert_eq!(rec.cigar, "5=");
}

#[test]
fn from_line_takes_the_first_tagged_field() {
    let line = "q\t1\t0\t1\t-\tt\t1\t0\t1\t1\t1\t60\tNM:i:5\tcg:Z:3=2X\tcg:Z:9=";
    let rec = PafRecord::from_line(line).unwrap();
    assert_eq!(rec.strand, '-');
    assert_eq!(rec.cigar, "3=2X");
}

#[test]
fn from_line_without_a_tag_leaves_the_operator_empty() {
    let line = "q\t1\t0\t1\t+\tt\t1\t0\t1\t1\t1\t60";
    let rec = PafRecord::from_line(line).unwrap();
    assert_eq!(rec.cigar, "");
}

#[test]
fn from_line_rejects_short_lines() {
    assert!(matches!(
        PafRecord::from_line("q\t1\t0\t1\t+\tt\t1\t0\t1\t1\t1"),
        Err(PafError::NotEnoughFields)
    ));
}

#[test]
fn from_line_rejects_bad_numbers_by_field() {
    assert!(matches!(
        PafRecord::from_line("q\tabc\t0\t1\t+\tt\t1\t0\t1\t1\t1\t60"),
        Err(PafError::InvalidQueryLength)
    ));
    assert!(matches!(
        PafRecord::from_line("q\t1\t-3\t1\t+\tt\t1\t0\t1\t1\t1\t60"),
        Err(PafError::InvalidQueryStart)
    ));
    assert!(matches!(
        PafRecord::from_line("q\t1\t0\t\t+\tt\t1\t0\t1\t1\t1\t60"),
        Err(PafError::InvalidQueryEnd)
    ));
    assert!(matches!(
        PafRecord::from_line("q\t1\t0\t1\t+\tt\t99999999999999999999999\t0\t1\t1\t1\t60"),
        Err(PafError::InvalidTargetLength)
    ));
    assert!(matches!(
        PafRecord::from_line("q\t1\t0\t1\t+\tt\t1\tx\t1\t1\t1\t60"),
        Err(PafError::InvalidTargetStart)
    ));
    assert!(matches!(
        PafRecord::from_line("q\t1\t0\t1\t+\tt\t1\t0\ty\t1\t1\t60"),
        Err(PafError::InvalidTargetEnd)
    ));
}

#[test]
fn from_line_rejects_an_empty_strand_field() {
    assert!(matches!(
        PafRecord::from_line("q\t1\t0\t1\t\tt\t1\t0\t1\t1\t1\t60"),
        Err(PafError::EmptyStrand)
    ));
}

#[test]
fn from_line_accepts_a_leading_plus_in_numbers() {
    let rec = PafRecord::from_line("q\t+123\t0\t1\t+\tt\t1\t0\t1\t1\t1\t60").unwrap();
    assert_eq!(rec.query_length, 123);
}

#[test]
fn parse_fasta_splits_records_and_trims_lines() {
    let recs = parse_fasta("> a \n ACGT \nTTaa\n>b\nGG\n");
    assert_eq!(
        recs,
        vec![
            ("a".to_string(), "ACGTTTaa".to_string()),
            ("b".to_string(), "GG".to_string()),
        ]
    );
}

#[test]
fn parse_fasta_handles_windows_line_endings() {
    let recs = parse_fasta(">a\r\nAC\r\nGT\r\n");
    assert_eq!(recs, vec![("a".to_string(), "ACGT".to_string())]);
}

#[test]
fn fetch_serves_half_open_windows() {
    let reader = MultiFastaReader::from_strings(">a\nACGTACGT", ">b\nTTTT").unwrap();
    assert_eq!(reader.fetch_query_sequence("a", 0, 8).unwrap(), "ACGTACGT");
    assert_eq!(reader.fetch_query_sequence("a", 2, 6).unwrap(), "GTAC");
    assert_eq!(reader.fetch_query_sequence("a", 3, 3).unwrap(), "");
    assert_eq!(reader.fetch_target_sequence("b", 1, 3).unwrap(), "TT");
}

#[test]
fn fetch_distinguishes_unknown_names_from_bad_ranges() {
    let reader = MultiFastaReader::from_strings(">a\nACGT", ">b\nTTTT").unwrap();
    assert_eq!(
        reader.fetch_query_sequence("zzz", 0, 1),
        Err(FetchError::UnknownName)
    );
    assert_eq!(
        reader.fetch_query_sequence("a", 0, 5),
        Err(FetchError::OutOfRange)
    );
    assert_eq!(
        reader.fetch_query_sequence("a", 3, 2),
        Err(FetchError::OutOfRange)
    );
    assert_eq!(
        reader.fetch_target_sequence("a", 0, 1),
        Err(FetchError::UnknownName)
    );
}

#[test]
fn fetch_serves_the_latest_record_under_a_repeated_name() {
    let reader = MultiFastaReader::from_strings(">a\nACGT\n>a\nTTTT", ">b\nGG").unwrap();
    assert_eq!(reader.fetch_query_sequence("a", 0, 4).unwrap(), "TTTT");
}

#[test]
fn reverse_complement_reverses_and_complements() {
    assert_eq!(reverse_complement("AACG"), "CGTT");
    assert_eq!(reverse_complement("ACGT"), "ACGT");
    assert_eq!(reverse_complement(""), "");
}

#[test]
fn reverse_complement_uppercases_and_maps_odd_bases_to_n() {
    assert_eq!(reverse_complement("acgtn"), "NACGT");
    assert_eq!(reverse_complement("Q"), "N");
}

#[test]
fn reverse_complement_round_trip_restores_the_uppercased_window() {
    let original = "acGTnNAcgt";
    let twice = reverse_complement(&reverse_complement(original));
    assert_eq!(twice, "ACGTNNACGT");
}

#[test]
fn walking_twice_yields_the_identical_finding_list() {
    let ops = parse_cigar("2=1X2=").unwrap();
    let q = uppercase_window("AcGTA");
    let t = uppercase_window("ACCTA");
    let first = walk(&ops, &q, &t, 10, 20).unwrap();
    let second = walk(&ops, &q, &t, 10, 20).unwrap();
    assert_eq!(first.len(), second.len());
    for (a, b) in first.iter().zip(second.iter()) {
        assert_eq!(a.kind, b.kind);
        assert_eq!(a.message, b.message);
    }
}

#[test]
fn run_lengths_account_for_both_windows_when_no_length_finding_fires() {
    // Insertions absorb query-only positions and deletions target-only
    // ones: a walk with no length finding means the run lengths sum to the
    // window lengths on each side.
    let ops = parse_cigar("6=1I6=").unwrap();
    let q = uppercase_window("ATCGATACGATCG");
    let t = uppercase_window("ATCGATCGATCG");
    let findings = walk(&ops, &q, &t, 0, 0).unwrap();
    assert!(findings.is_empty());
    // 6 + 1 + 6 query positions, 6 + 6 target positions.
    assert_eq!(q.len(), 13);
    assert_eq!(t.len(), 12);
}
