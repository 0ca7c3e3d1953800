use vstd::prelude::*;

verus! {

use crate::table::KmerTable;
use crate::util::append_bytes;

/// The decimal digits of `n`, most significant first, as ASCII bytes
/// (byte 48 is the digit zero).
pub open spec fn decimal(n: nat) -> Seq<u8>
    decreases n,
{
    if n < 10 {
        seq![(48 + n) as u8]
    } else {
        decimal(n / 10) + seq![(48 + n % 10) as u8]
    }
}

/// One output row: the k-mer, a tab (byte 9), the count in decimal, and a
/// line feed (byte 10).
pub open spec fn tsv_line(kmer: Seq<u8>, count: u64) -> Seq<u8> {
    kmer + seq![9u8] + decimal(count as nat) + seq![10u8]
}

/// The bytes of all rows, in row order.
pub open spec fn tsv_bytes(rows: Seq<(Seq<u8>, u64)>) -> Seq<u8>
    decreases rows.len(),
{
    if rows.len() == 0 {
        Seq::empty()
    } else {
        tsv_bytes(rows.drop_last()) + tsv_line(rows.last().0, rows.last().1)
    }
}

/// `rows` spell out the mapping `m`: one row per distinct key, each bearing
/// the count `m` holds for it, and no key of `m` missing.
pub open spec fn rows_match_counts(rows: Seq<(Seq<u8>, u64)>, m: Map<Seq<u8>, u64>) -> bool {
    &&& forall|i: int, j: int|
        #![trigger rows[i], rows[j]]
        0 <= i < j < rows.len() ==> rows[i].0 != rows[j].0
    &&& forall|i: int|
        0 <= i < rows.len() ==> m.contains_key((#[trigger] rows[i]).0) && m[rows[i].0]
            == rows[i].1
    &&& forall|w: Seq<u8>| #[trigger]
        m.contains_key(w) ==> exists|i: int| 0 <= i < rows.len() && rows[i].0 == w
}

/// The decimal rendering of `v`.
pub fn u64_to_decimal(v: u64) -> (r: Vec<u8>)
    ensures
        r@ == decimal(v as nat),
{
    let mut digits: Vec<u8> = Vec::new();
    let mut x = v;
    proof {
        assert(decimal(v as nat) =~= decimal(x as nat) + digits@);
    }
    while x >= 10
        invariant
            decimal(v as nat) == decimal(x as nat) + digits@,
        decreases x,
    {
        let d: u8 = (x % 10) as u8;
        let b: u8 = 48 + d;
        let ghost prev = digits@;
        digits.insert(0, b);
        proof {
            assert(digits@ =~= seq![b] + prev);
            assert(b as nat == 48 + (x as nat) % 10);
            assert(decimal(x as nat) == decimal((x as nat) / 10) + seq![b]);
            assert(decimal((x as nat) / 10) + (seq![b] + prev) =~= (decimal((x as nat) / 10)
                + seq![b]) + prev);
            assert((x / 10) as nat == (x as nat) / 10);
        }
        x = x / 10;
    }
    let b: u8 = 48 + (x as u8);
    let ghost prev = digits@;
    digits.insert(0, b);
    proof {
        assert(digits@ =~= seq![b] + prev);
        assert(b as nat == 48 + x as nat);
        assert(decimal(x as nat) == seq![b]);
        assert(seq![b] + prev =~= decimal(x as nat) + prev);
    }
    digits
}

/// The output artifact: one tab-separated row per distinct k-mer of the
/// table, in the table's row order — rows that spell out exactly the table's
/// mapping.
pub fn table_to_tsv(t: &KmerTable) -> (r: Vec<u8>)
    requires
        t.wf(),
    ensures
        exists|rows: Seq<(Seq<u8>, u64)>| #[trigger]
            rows_match_counts(rows, t@) && r@ == tsv_bytes(rows),
{
    let ghost rows = t.spec_entries();
    let n = t.num_entries();
    let mut r: Vec<u8> = Vec::new();
    let mut i: usize = 0;
    proof {
        assert(rows.take(0) =~= Seq::<(Seq<u8>, u64)>::empty());
        assert(r@ =~= tsv_bytes(rows.take(0)));
    }
    while i < n
        invariant
            t.wf(),
            rows == t.spec_entries(),
            n == rows.len(),
            i <= n,
            r@ == tsv_bytes(rows.take(i as int)),
        decreases n - i,
    {
        let ghost prev = r@;
        let key = t.entry_key(i);
        append_bytes(&mut r, key);
        r.push(9);
        let count = t.entry_count(i);
        let dec = u64_to_decimal(count);
        append_bytes(&mut r, &dec);
        r.push(10);
        proof {
            assert(rows.take(i + 1).drop_last() =~= rows.take(i as int));
            assert(rows.take(i + 1).last() == rows[i as int]);
            assert(r@ =~= prev + tsv_line(rows[i as int].0, rows[i as int].1));
        }
        i += 1;
    }
    proof {
        assert(rows.take(n as int) =~= rows);
        t.lemma_entries_match();
        assert(rows_match_counts(rows, t@));
    }
    r
}

} // verus!
