use vstd::prelude::*;

verus! {

use crate::counts::count_at;
use crate::counts::is_sequence_counts;
use crate::counts::lemma_occ_upto_le;
use crate::counts::occ_upto;
use crate::counts::window_count;
use crate::table::KmerTable;

/// The Shard Counter: the frequency table of all length-`k` windows of one
/// sequence, counting one occurrence per start position.  A window size of
/// zero, or one exceeding the sequence's length, contributes no entries.
pub fn count_sequence(s: &Vec<u8>, k: usize) -> (t: KmerTable)
    ensures
        t.wf(),
        is_sequence_counts(t@, s@, k as nat),
{
    let mut t = KmerTable::new();
    if k == 0 || k > s.len() {
        proof {
            assert(window_count(s@.len(), k as nat) == 0);
        }
        return t;
    }
    let n = s.len();
    let m = n - k + 1;
    let mut j: usize = 0;
    while j < m
        invariant
            t.wf(),
            n == s@.len(),
            1 <= k <= n,
            m == n - k + 1,
            j <= m,
            forall|w: Seq<u8>| #[trigger]
                t@.contains_key(w) <==> occ_upto(s@, k as nat, w, j as nat) > 0,
            forall|w: Seq<u8>| #[trigger]
                t@.contains_key(w) ==> t@[w] as nat == occ_upto(s@, k as nat, w, j as nat),
        decreases m - j,
    {
        let mut window: Vec<u8> = Vec::new();
        let mut l: usize = 0;
        while l < k
            invariant
                n == s@.len(),
                j + k <= n,
                l <= k,
                window@ == s@.subrange(j as int, j + l),
            decreases k - l,
        {
            window.push(s[j + l]);
            proof {
                assert(window@ =~= s@.subrange(j as int, j + l + 1));
            }
            l += 1;
        }
        let ghost prev = t@;
        proof {
            lemma_occ_upto_le(s@, k as nat, window@, j as nat);
            assert(count_at(prev, window@) <= j);
        }
        t.add_count(&window, 1);
        proof {
            assert forall|w: Seq<u8>| #[trigger]
                t@.contains_key(w) <==> occ_upto(s@, k as nat, w, (j + 1) as nat) > 0 by {
                assert(occ_upto(s@, k as nat, w, (j + 1) as nat) == occ_upto(s@, k as nat, w, j as nat)
                    + if s@.subrange(j as int, j + k as nat) == w {
                    1nat
                } else {
                    0nat
                });
                if w != window@ {
                    assert(t@.contains_key(w) == prev.contains_key(w));
                    assert(s@.subrange(j as int, j + k as nat) != w);
                }
            }
            assert forall|w: Seq<u8>| #[trigger]
                t@.contains_key(w) implies t@[w] as nat == occ_upto(
                s@,
                k as nat,
                w,
                (j + 1) as nat,
            ) by {
                assert(occ_upto(s@, k as nat, w, (j + 1) as nat) == occ_upto(s@, k as nat, w, j as nat)
                    + if s@.subrange(j as int, j + k as nat) == w {
                    1nat
                } else {
                    0nat
                });
                if w == window@ {
                    assert(t@[w] as nat == count_at(prev, window@) + 1);
                    assert(count_at(prev, window@) == occ_upto(s@, k as nat, w, j as nat));
                } else {
                    assert(t@[w] == prev[w]);
                    assert(prev.contains_key(w));
                }
            }
        }
        j += 1;
    }
    proof {
        assert(window_count(s@.len(), k as nat) == m as nat);
    }
    t
}

} // verus!
