use kmer_counter::engine::count_kmers;
use kmer_counter::source::detect_format;
use kmer_counter::source::sequences_from_fasta;
use kmer_counter::source::sequences_from_fastq;
use kmer_counter::source::sequences_from_lines;
use kmer_counter::source::FormatError;
use kmer_counter::source::SequenceFormat;

fn lines(list: &[&str]) -> Vec<Vec<u8>> {
    list.iter().map(|s| s.as_bytes().to_vec()).collect()
}

#[test]
fn fasta_round_trip() {
    let ls = lines(&[">r1", "ACGT", ">r2", "TTTT"]);
    let seqs = sequences_from_fasta(&ls);
    assert_eq!(seqs, vec![b"ACGT".to_vec(), b"TTTT".to_vec()]);
    let t = count_kmers(&seqs, 2);
    assert_eq!(t.num_entries(), 4);
    assert_eq!(t.get_count(&b"AC".to_vec()), 1);
    assert_eq!(t.get_count(&b"CG".to_vec()), 1);
    assert_eq!(t.get_count(&b"GT".to_vec()), 1);
    assert_eq!(t.get_count(&b"TT".to_vec()), 3);
}

#[test]
fn fastq_extraction() {
    let ls = lines(&["@r1", "ACGT", "+", "IIII"]);
    let seqs = sequences_from_fastq(&ls);
    assert_eq!(seqs, vec![b"ACGT".to_vec()]);
    let t = count_kmers(&seqs, 1);
    assert_eq!(t.num_entries(), 4);
    assert_eq!(t.get_count(&b"A".to_vec()), 1);
    assert_eq!(t.get_count(&b"C".to_vec()), 1);
    assert_eq!(t.get_count(&b"G".to_vec()), 1);
    assert_eq!(t.get_count(&b"T".to_vec()), 1);
}

#[test]
fn fasta_multi_line_record_concatenated() {
    let seqs = sequences_from_fasta(&lines(&[">r", "AC", "GT"]));
    assert_eq!(seqs, vec![b"ACGT".to_vec()]);
}

#[test]
fn fasta_ignores_lines_before_first_marker() {
    let seqs = sequences_from_fasta(&lines(&["ACGT", ">r", "TT"]));
    assert_eq!(seqs, vec![b"TT".to_vec()]);
}

#[test]
fn fasta_drops_empty_record() {
    let seqs = sequences_from_fasta(&lines(&[">a", ">b", "GG"]));
    assert_eq!(seqs, vec![b"GG".to_vec()]);
}

#[test]
fn fasta_empty_input_yields_no_sequences() {
    let seqs = sequences_from_fasta(&lines(&[]));
    assert_eq!(seqs, Vec::<Vec<u8>>::new());
}

#[test]
fn fastq_two_records() {
    let ls = lines(&["@r1", "ACGT", "+", "IIII", "@r2", "TTTT", "+", "IIII"]);
    let seqs = sequences_from_fastq(&ls);
    assert_eq!(seqs, vec![b"ACGT".to_vec(), b"TTTT".to_vec()]);
}

#[test]
fn fastq_multi_line_record_concatenated() {
    let seqs = sequences_from_fastq(&lines(&["@r", "AC", "GT", "+", "IIII"]));
    assert_eq!(seqs, vec![b"ACGT".to_vec()]);
}

#[test]
fn fastq_unterminated_record_dropped() {
    let seqs = sequences_from_fastq(&lines(&["@r", "ACGT"]));
    assert_eq!(seqs, Vec::<Vec<u8>>::new());
}

#[test]
fn detect_format_by_suffix() {
    assert_eq!(detect_format(&b"reads.fasta".to_vec()), Ok(SequenceFormat::Fasta));
    assert_eq!(detect_format(&b"reads.fastq".to_vec()), Ok(SequenceFormat::Fastq));
    assert_eq!(detect_format(&b"reads.txt".to_vec()), Err(FormatError::UnsupportedSuffix));
    assert_eq!(detect_format(&b"".to_vec()), Err(FormatError::UnsupportedSuffix));
}

#[test]
fn dispatch_follows_format() {
    let fasta = lines(&[">r1", "ACGT"]);
    assert_eq!(
        sequences_from_lines(SequenceFormat::Fasta, &fasta),
        sequences_from_fasta(&fasta)
    );
    let fastq = lines(&["@r1", "ACGT", "+", "IIII"]);
    assert_eq!(
        sequences_from_lines(SequenceFormat::Fastq, &fastq),
        sequences_from_fastq(&fastq)
    );
}
