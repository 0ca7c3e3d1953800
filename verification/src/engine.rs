use vstd::prelude::*;

use rayon::prelude::IndexedParallelIterator;
use rayon::prelude::IntoParallelRefIterator;
use rayon::prelude::ParallelIterator;
use std::io::Write;

verus! {

use crate::counts::count_at;
use crate::counts::is_global_counts;
use crate::counts::is_sequence_counts;
use crate::counts::lemma_total_occurrences_le_total_windows;
use crate::counts::lemma_total_occurrences_push;
use crate::counts::lemma_total_occurrences_take_le;
use crate::counts::lemma_total_windows_push;
use crate::counts::lemma_total_windows_take_le;
use crate::counts::occurrences;
use crate::counts::total_occurrences;
use crate::counts::total_windows;
use crate::counts::window_count;
use crate::progress::progress_due;
use crate::shard::count_sequence;
use crate::table::KmerTable;
use crate::util::views_of;

/// Relies on rayon's `par_iter().map(f).collect_into_vec(&mut out)`: it
/// applies `f` to every element, in parallel on the current worker pool, and
/// stores the results in the input's order
/// (`IndexedParallelIterator::collect_into_vec`).  The closure only calls the
/// library's own verified `count_sequence`, so each result is that function's
/// result for the element at the same position.
#[verifier::external_body]
fn par_local_counts(seqs: &Vec<Vec<u8>>, k: usize) -> (r: Vec<KmerTable>)
    ensures
        r@.len() == seqs@.len(),
        forall|i: int|
            0 <= i < r@.len() ==> (#[trigger] r@[i]).wf() && is_sequence_counts(
                r@[i]@,
                seqs@[i]@,
                k as nat,
            ),
{
    let mut out: Vec<KmerTable> = Vec::new();
    seqs.par_iter().map(|s| count_sequence(s, k)).collect_into_vec(&mut out);
    out
}

/// Relies on `writeln!` to standard output: observational progress logging
/// only; a write failure is ignored.
#[verifier::external_body]
fn emit_progress(completed: usize) {
    let mut out = std::io::stdout();
    let _ = writeln!(out, "{}", completed);
}

/// The Merge Coordinator: counts every length-`k` window of every sequence.
/// Each sequence is counted on the worker pool into a local table; the local
/// tables are then folded, one whole table at a time, into the global table.
/// The result maps exactly the windows that occur somewhere in `seqs`, each
/// to its total occurrence count — independent of worker-pool size,
/// scheduling, and partitioning, which the contract does not mention.
pub fn count_kmers(seqs: &Vec<Vec<u8>>, k: usize) -> (t: KmerTable)
    requires
        total_windows(views_of(seqs@), k as nat) <= u64::MAX,
    ensures
        t.wf(),
        is_global_counts(t@, views_of(seqs@), k as nat),
{
    let ghost all = views_of(seqs@);
    let locals = par_local_counts(seqs, k);
    let total = seqs.len();
    let mut global = KmerTable::new();
    let mut i: usize = 0;
    proof {
        assert(all.take(0) =~= Seq::<Seq<u8>>::empty());
    }
    while i < total
        invariant
            total == seqs@.len(),
            locals@.len() == seqs@.len(),
            forall|p: int|
                0 <= p < locals@.len() ==> (#[trigger] locals@[p]).wf() && is_sequence_counts(
                    locals@[p]@,
                    seqs@[p]@,
                    k as nat,
                ),
            all == views_of(seqs@),
            total_windows(all, k as nat) <= u64::MAX,
            i <= total,
            global.wf(),
            is_global_counts(global@, all.take(i as int), k as nat),
        decreases total - i,
    {
        let ghost pre = all.take(i as int);
        let ghost snext = all[i as int];
        let ghost local_map = locals@[i as int]@;
        let ghost gprev = global@;
        proof {
            assert(all[i as int] == seqs@[i as int]@);
            assert(pre.push(snext) =~= all.take(i + 1));
            assert forall|w: Seq<u8>|
                gprev.contains_key(w) && #[trigger] local_map.contains_key(w) implies gprev[w]
                + local_map[w] <= u64::MAX by {
                assert(gprev[w] as nat == total_occurrences(pre, k as nat, w));
                assert(local_map[w] as nat == occurrences(snext, k as nat, w));
                lemma_total_occurrences_push(pre, snext, k as nat, w);
                lemma_total_occurrences_take_le(all, k as nat, w, i + 1);
                lemma_total_occurrences_le_total_windows(all, k as nat, w);
            }
        }
        global.merge_from(&locals[i]);
        proof {
            assert forall|w: Seq<u8>| #[trigger]
                global@.contains_key(w) <==> total_occurrences(all.take(i + 1), k as nat, w)
                    > 0 by {
                lemma_total_occurrences_push(pre, snext, k as nat, w);
                assert(global@.contains_key(w) <==> (gprev.contains_key(w)
                    || local_map.contains_key(w)));
            }
            assert forall|w: Seq<u8>| #[trigger]
                global@.contains_key(w) implies global@[w] as nat == total_occurrences(
                all.take(i + 1),
                k as nat,
                w,
            ) by {
                lemma_total_occurrences_push(pre, snext, k as nat, w);
                assert(global@[w] as nat == count_at(gprev, w) + count_at(local_map, w));
                if gprev.contains_key(w) {
                    assert(count_at(gprev, w) == total_occurrences(pre, k as nat, w));
                } else {
                    assert(total_occurrences(pre, k as nat, w) == 0);
                }
                if local_map.contains_key(w) {
                    assert(count_at(local_map, w) == occurrences(snext, k as nat, w));
                } else {
                    assert(occurrences(snext, k as nat, w) == 0);
                }
            }
        }
        i += 1;
        if progress_due(i, total) {
            emit_progress(i);
        }
    }
    proof {
        assert(all.take(total as int) =~= all);
    }
    global
}

/// `count_kmers` behind its own guard: counts when every count fits in a
/// `u64` — that is, when the total number of windows does — and reports
/// `None` otherwise instead of asking the caller to check.
pub fn count_kmers_checked(seqs: &Vec<Vec<u8>>, k: usize) -> (r: Option<KmerTable>)
    ensures
        r is Some <==> total_windows(views_of(seqs@), k as nat) <= u64::MAX,
        r is Some ==> r.unwrap().wf() && is_global_counts(
            r.unwrap()@,
            views_of(seqs@),
            k as nat,
        ),
{
    let ghost all = views_of(seqs@);
    let n = seqs.len();
    let mut tw: u64 = 0;
    let mut i: usize = 0;
    proof {
        assert(all.take(0) =~= Seq::<Seq<u8>>::empty());
    }
    while i < n
        invariant
            n == seqs@.len(),
            all == views_of(seqs@),
            i <= n,
            tw as nat == total_windows(all.take(i as int), k as nat),
        decreases n - i,
    {
        let li = seqs[i].len();
        let wc: usize = if k == 0 || k > li {
            0
        } else {
            li - k + 1
        };
        proof {
            assert(all[i as int] == seqs@[i as int]@);
            assert(wc as nat == window_count(all[i as int].len(), k as nat));
            lemma_total_windows_push(all.take(i as int), all[i as int], k as nat);
            assert(all.take(i as int).push(all[i as int]) =~= all.take(i + 1));
        }
        let wc64: u64 = wc as u64;
        if wc64 > u64::MAX - tw {
            proof {
                lemma_total_windows_take_le(all, k as nat, i + 1);
            }
            return None;
        }
        tw = tw + wc64;
        i += 1;
    }
    proof {
        assert(all.take(n as int) =~= all);
    }
    Some(count_kmers(seqs, k))
}

} // verus!
