use kmer_counter::engine::count_kmers;
use kmer_counter::output::table_to_tsv;
use kmer_counter::output::u64_to_decimal;
use kmer_counter::table::KmerTable;

#[test]
fn decimal_digits_exact() {
    assert_eq!(u64_to_decimal(0), b"0".to_vec());
    assert_eq!(u64_to_decimal(7), b"7".to_vec());
    assert_eq!(u64_to_decimal(10), b"10".to_vec());
    assert_eq!(u64_to_decimal(205), b"205".to_vec());
    assert_eq!(u64_to_decimal(12345), b"12345".to_vec());
    assert_eq!(u64_to_decimal(u64::MAX), b"18446744073709551615".to_vec());
}

#[test]
fn tsv_single_row() {
    let mut t = KmerTable::new();
    t.add_count(&b"AA".to_vec(), 3);
    assert_eq!(table_to_tsv(&t), b"AA\t3\n".to_vec());
}

#[test]
fn tsv_through_engine() {
    let t = count_kmers(&vec![b"AAAA".to_vec()], 2);
    assert_eq!(table_to_tsv(&t), b"AA\t3\n".to_vec());
}

#[test]
fn tsv_rows_cover_table() {
    let t = count_kmers(&vec![b"ACGT".to_vec()], 2);
    let tsv = table_to_tsv(&t);
    let text = String::from_utf8(tsv).unwrap();
    let mut rows: Vec<&str> = text.lines().collect();
    rows.sort();
    assert_eq!(rows, vec!["AC\t1", "CG\t1", "GT\t1"]);
}

#[test]
fn table_add_and_get() {
    let mut t = KmerTable::new();
    assert_eq!(t.num_entries(), 0);
    t.add_count(&b"AA".to_vec(), 2);
    t.add_count(&b"AA".to_vec(), 1);
    t.add_count(&b"GG".to_vec(), 4);
    assert_eq!(t.num_entries(), 2);
    assert_eq!(t.get_count(&b"AA".to_vec()), 3);
    assert_eq!(t.get_count(&b"GG".to_vec()), 4);
    assert_eq!(t.get_count(&b"TT".to_vec()), 0);
}

#[test]
fn table_merge_sums_counts() {
    let mut t1 = KmerTable::new();
    t1.add_count(&b"AA".to_vec(), 2);
    let mut t2 = KmerTable::new();
    t2.add_count(&b"AA".to_vec(), 3);
    t2.add_count(&b"TA".to_vec(), 1);
    t1.merge_from(&t2);
    assert_eq!(t1.num_entries(), 2);
    assert_eq!(t1.get_count(&b"AA".to_vec()), 5);
    assert_eq!(t1.get_count(&b"TA".to_vec()), 1);
}
