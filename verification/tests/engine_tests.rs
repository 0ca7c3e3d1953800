use kmer_counter::engine::count_kmers;
use kmer_counter::engine::count_kmers_checked;
use kmer_counter::progress::progress_due;
use kmer_counter::progress::progress_interval;
use kmer_counter::shard::count_sequence;
use kmer_counter::table::KmerTable;

fn seqs(list: &[&str]) -> Vec<Vec<u8>> {
    list.iter().map(|s| s.as_bytes().to_vec()).collect()
}

fn tables_equal(a: &KmerTable, b: &KmerTable) -> bool {
    if a.num_entries() != b.num_entries() {
        return false;
    }
    for i in 0..a.num_entries() {
        let key = a.entry_key(i).clone();
        if b.get_count(&key) != a.entry_count(i) {
            return false;
        }
    }
    true
}

#[test]
fn count_correctness_single_sequence() {
    let t = count_kmers(&seqs(&["AAAA"]), 2);
    assert_eq!(t.num_entries(), 1);
    assert_eq!(t.get_count(&b"AA".to_vec()), 3);
}

#[test]
fn multi_sequence_accumulation() {
    let t = count_kmers(&seqs(&["AAAA", "TAAA"]), 2);
    assert_eq!(t.num_entries(), 2);
    assert_eq!(t.get_count(&b"AA".to_vec()), 5);
    assert_eq!(t.get_count(&b"TA".to_vec()), 1);
}

#[test]
fn k_exceeding_length_contributes_zero_entries() {
    let local = count_sequence(&b"ACG".to_vec(), 5);
    assert_eq!(local.num_entries(), 0);
    let global = count_kmers(&seqs(&["ACG"]), 5);
    assert_eq!(global.num_entries(), 0);
}

#[test]
fn zero_k_contributes_zero_entries() {
    let t = count_kmers(&seqs(&["ACGT"]), 0);
    assert_eq!(t.num_entries(), 0);
}

#[test]
fn each_position_counted_once() {
    let t = count_sequence(&b"ACGT".to_vec(), 1);
    assert_eq!(t.num_entries(), 4);
    assert_eq!(t.get_count(&b"A".to_vec()), 1);
    assert_eq!(t.get_count(&b"C".to_vec()), 1);
    assert_eq!(t.get_count(&b"G".to_vec()), 1);
    assert_eq!(t.get_count(&b"T".to_vec()), 1);
}

#[test]
fn merge_commutativity_across_pool_sizes() {
    let input = seqs(&["AAAA", "TAAA", "ACGTACGT", "GGGG", "CGCGCG", "TTTTTTTT"]);
    let pool1 = rayon::ThreadPoolBuilder::new().num_threads(1).build().unwrap();
    let pool4 = rayon::ThreadPoolBuilder::new().num_threads(4).build().unwrap();
    let t1 = pool1.install(|| count_kmers(&input, 2));
    let t4 = pool4.install(|| count_kmers(&input, 2));
    assert!(tables_equal(&t1, &t4));
    assert!(tables_equal(&t4, &t1));
}

#[test]
fn idempotent_runs() {
    let input = seqs(&["ACGTACGT", "TTAA", "CGCG"]);
    let first = count_kmers(&input, 3);
    let second = count_kmers(&input, 3);
    assert!(tables_equal(&first, &second));
}

#[test]
fn checked_counts_match_plain() {
    let input = seqs(&["AAAA", "TAAA"]);
    let checked = count_kmers_checked(&input, 2).unwrap();
    let plain = count_kmers(&input, 2);
    assert!(tables_equal(&checked, &plain));
}

#[test]
fn progress_interval_guards_small_totals() {
    assert_eq!(progress_interval(100), 10);
    assert_eq!(progress_interval(10), 1);
    assert_eq!(progress_interval(5), 1);
    assert_eq!(progress_interval(0), 1);
}

#[test]
fn progress_due_at_multiples() {
    assert!(progress_due(10, 100));
    assert!(progress_due(20, 100));
    assert!(!progress_due(7, 100));
    assert!(progress_due(3, 5));
    assert!(progress_due(1, 0));
}
