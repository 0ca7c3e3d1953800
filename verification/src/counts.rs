use vstd::prelude::*;

verus! {

/// Number of start positions at which a length-`k` window fits in a sequence
/// of length `n`: positions `0 ..= n - k` when `1 <= k <= n`, none otherwise.
pub open spec fn window_count(n: nat, k: nat) -> nat {
    if k == 0 || k > n {
        0
    } else {
        (n - k + 1) as nat
    }
}

/// Occurrences of `w` among the first `j` windows of `s`: the number of start
/// positions `p < j` whose length-`k` window `s[p .. p + k)` equals `w`.
pub open spec fn occ_upto(s: Seq<u8>, k: nat, w: Seq<u8>, j: nat) -> nat
    decreases j,
{
    if j == 0 {
        0
    } else {
        occ_upto(s, k, w, (j - 1) as nat) + if s.subrange(
            (j - 1) as int,
            (j - 1 + k) as int,
        ) == w {
            1nat
        } else {
            0nat
        }
    }
}

/// Occurrences of `w` as a length-`k` window of `s`.
pub open spec fn occurrences(s: Seq<u8>, k: nat, w: Seq<u8>) -> nat {
    occ_upto(s, k, w, window_count(s.len(), k))
}

/// Total occurrences of `w` as a length-`k` window across all of `seqs`.
pub open spec fn total_occurrences(seqs: Seq<Seq<u8>>, k: nat, w: Seq<u8>) -> nat
    decreases seqs.len(),
{
    if seqs.len() == 0 {
        0
    } else {
        total_occurrences(seqs.drop_last(), k, w) + occurrences(seqs.last(), k, w)
    }
}

/// Total number of length-`k` windows across all of `seqs`.
pub open spec fn total_windows(seqs: Seq<Seq<u8>>, k: nat) -> nat
    decreases seqs.len(),
{
    if seqs.len() == 0 {
        0
    } else {
        total_windows(seqs.drop_last(), k) + window_count(seqs.last().len(), k)
    }
}

/// `m` is the frequency mapping of the single sequence `s` for window size
/// `k`: it holds exactly the windows that occur in `s`, each with its count.
pub open spec fn is_sequence_counts(m: Map<Seq<u8>, u64>, s: Seq<u8>, k: nat) -> bool {
    &&& forall|w: Seq<u8>| #[trigger] m.contains_key(w) <==> occurrences(s, k, w) > 0
    &&& forall|w: Seq<u8>| #[trigger] m.contains_key(w) ==> m[w] as nat == occurrences(s, k, w)
}

/// `m` is the global frequency mapping of the sequence list `seqs` for window
/// size `k`: it holds exactly the windows that occur somewhere in `seqs`,
/// each with its total occurrence count.  This is the engine's correctness
/// statement.
pub open spec fn is_global_counts(m: Map<Seq<u8>, u64>, seqs: Seq<Seq<u8>>, k: nat) -> bool {
    &&& forall|w: Seq<u8>| #[trigger] m.contains_key(w) <==> total_occurrences(seqs, k, w) > 0
    &&& forall|w: Seq<u8>| #[trigger] m.contains_key(w) ==> m[w] as nat == total_occurrences(
        seqs,
        k,
        w,
    )
}

/// The count `m` holds for `w`, taking an absent key as zero.
pub open spec fn count_at(m: Map<Seq<u8>, u64>, w: Seq<u8>) -> nat {
    if m.contains_key(w) {
        m[w] as nat
    } else {
        0
    }
}

/// At most one occurrence is counted per window position.
pub proof fn lemma_occ_upto_le(s: Seq<u8>, k: nat, w: Seq<u8>, j: nat)
    ensures
        occ_upto(s, k, w, j) <= j,
    decreases j,
{
    if j > 0 {
        lemma_occ_upto_le(s, k, w, (j - 1) as nat);
    }
}

/// A sequence holds at most `window_count` occurrences of any window.
pub proof fn lemma_occurrences_le_window_count(s: Seq<u8>, k: nat, w: Seq<u8>)
    ensures
        occurrences(s, k, w) <= window_count(s.len(), k),
{
    lemma_occ_upto_le(s, k, w, window_count(s.len(), k));
}

/// A sequence list holds at most `total_windows` occurrences of any window.
pub proof fn lemma_total_occurrences_le_total_windows(seqs: Seq<Seq<u8>>, k: nat, w: Seq<u8>)
    ensures
        total_occurrences(seqs, k, w) <= total_windows(seqs, k),
    decreases seqs.len(),
{
    if seqs.len() > 0 {
        lemma_total_occurrences_le_total_windows(seqs.drop_last(), k, w);
        lemma_occurrences_le_window_count(seqs.last(), k, w);
    }
}

/// Appending one sequence adds exactly its own occurrences.
pub proof fn lemma_total_occurrences_push(pre: Seq<Seq<u8>>, s: Seq<u8>, k: nat, w: Seq<u8>)
    ensures
        total_occurrences(pre.push(s), k, w) == total_occurrences(pre, k, w) + occurrences(
            s,
            k,
            w,
        ),
{
    assert(pre.push(s).drop_last() =~= pre);
    assert(pre.push(s).last() == s);
}

/// Appending one sequence adds exactly its own windows.
pub proof fn lemma_total_windows_push(pre: Seq<Seq<u8>>, s: Seq<u8>, k: nat)
    ensures
        total_windows(pre.push(s), k) == total_windows(pre, k) + window_count(s.len(), k),
{
    assert(pre.push(s).drop_last() =~= pre);
    assert(pre.push(s).last() == s);
}

/// A prefix of the sequence list holds no more occurrences than the whole.
pub proof fn lemma_total_occurrences_take_le(seqs: Seq<Seq<u8>>, k: nat, w: Seq<u8>, i: int)
    requires
        0 <= i <= seqs.len(),
    ensures
        total_occurrences(seqs.take(i), k, w) <= total_occurrences(seqs, k, w),
    decreases seqs.len(),
{
    if i == seqs.len() {
        assert(seqs.take(i) =~= seqs);
    } else {
        assert(seqs.drop_last().take(i) =~= seqs.take(i));
        lemma_total_occurrences_take_le(seqs.drop_last(), k, w, i);
    }
}

/// A prefix of the sequence list holds no more windows than the whole.
pub proof fn lemma_total_windows_take_le(seqs: Seq<Seq<u8>>, k: nat, i: int)
    requires
        0 <= i <= seqs.len(),
    ensures
        total_windows(seqs.take(i), k) <= total_windows(seqs, k),
    decreases seqs.len(),
{
    if i == seqs.len() {
        assert(seqs.take(i) =~= seqs);
    } else {
        assert(seqs.drop_last().take(i) =~= seqs.take(i));
        lemma_total_windows_take_le(seqs.drop_last(), k, i);
    }
}

/// A sequence shorter than the window size contributes no occurrences: with
/// `k > s.len()` no full-length window exists, so every count is zero.
pub proof fn lemma_short_sequence_contributes_nothing(s: Seq<u8>, k: nat, w: Seq<u8>)
    requires
        k > s.len(),
    ensures
        occurrences(s, k, w) == 0,
{
}

/// Occurrences add up over concatenation of sequence lists.
pub proof fn lemma_total_occurrences_concat(s1: Seq<Seq<u8>>, s2: Seq<Seq<u8>>, k: nat, w: Seq<u8>)
    ensures
        total_occurrences(s1 + s2, k, w) == total_occurrences(s1, k, w) + total_occurrences(
            s2,
            k,
            w,
        ),
    decreases s2.len(),
{
    if s2.len() == 0 {
        assert(s1 + s2 =~= s1);
    } else {
        assert((s1 + s2).drop_last() =~= s1 + s2.drop_last());
        assert((s1 + s2).last() == s2.last());
        lemma_total_occurrences_concat(s1, s2.drop_last(), k, w);
    }
}

/// Merge commutativity: summing the global frequency mappings of two parts
/// of the input, key by key, yields the global frequency mapping of the
/// whole.  However the sequences are partitioned across workers, and in
/// whatever order the per-part mappings are folded (the sum is symmetric in
/// `m1` and `m2`), the folded result is the mapping of the combined list.
pub proof fn lemma_merge_of_partition(
    m1: Map<Seq<u8>, u64>,
    m2: Map<Seq<u8>, u64>,
    m: Map<Seq<u8>, u64>,
    s1: Seq<Seq<u8>>,
    s2: Seq<Seq<u8>>,
    k: nat,
)
    requires
        is_global_counts(m1, s1, k),
        is_global_counts(m2, s2, k),
        forall|w: Seq<u8>| #[trigger]
            m.contains_key(w) <==> (m1.contains_key(w) || m2.contains_key(w)),
        forall|w: Seq<u8>| #[trigger]
            m.contains_key(w) ==> m[w] as nat == count_at(m1, w) + count_at(m2, w),
    ensures
        is_global_counts(m, s1 + s2, k),
{
    assert forall|w: Seq<u8>| #[trigger]
        m.contains_key(w) <==> total_occurrences(s1 + s2, k, w) > 0 by {
        lemma_total_occurrences_concat(s1, s2, k, w);
    }
    assert forall|w: Seq<u8>| #[trigger]
        m.contains_key(w) implies m[w] as nat == total_occurrences(s1 + s2, k, w) by {
        lemma_total_occurrences_concat(s1, s2, k, w);
        if m1.contains_key(w) {
            assert(count_at(m1, w) == total_occurrences(s1, k, w));
        } else {
            assert(total_occurrences(s1, k, w) == 0);
        }
        if m2.contains_key(w) {
            assert(count_at(m2, w) == total_occurrences(s2, k, w));
        } else {
            assert(total_occurrences(s2, k, w) == 0);
        }
    }
}

/// The global frequency mapping is a function of the sequence list and the
/// window size alone: any two mappings that satisfy `is_global_counts` for
/// the same input are equal.  In particular the engine's result does not
/// depend on the worker-pool size, on how the sequences were partitioned, or
/// on the run: a pool of one worker, a pool of many, and two runs on the same
/// input all produce the same mapping.
pub proof fn lemma_global_counts_deterministic(
    m1: Map<Seq<u8>, u64>,
    m2: Map<Seq<u8>, u64>,
    seqs: Seq<Seq<u8>>,
    k: nat,
)
    requires
        is_global_counts(m1, seqs, k),
        is_global_counts(m2, seqs, k),
    ensures
        m1 == m2,
{
    assert forall|w: Seq<u8>| m1.contains_key(w) <==> m2.contains_key(w) by {
        assert(m1.contains_key(w) <==> total_occurrences(seqs, k, w) > 0);
        assert(m2.contains_key(w) <==> total_occurrences(seqs, k, w) > 0);
    }
    assert forall|w: Seq<u8>| #[trigger] m1.contains_key(w) implies m1[w] == m2[w] by {
        assert(m1[w] as nat == total_occurrences(seqs, k, w));
        assert(m2.contains_key(w));
        assert(m2[w] as nat == total_occurrences(seqs, k, w));
    }
    assert(m1 =~= m2);
}

} // verus!
