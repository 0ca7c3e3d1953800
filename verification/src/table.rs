use vstd::prelude::*;

verus! {

use crate::counts::count_at;
use crate::util::bytes_eq;
use crate::util::copy_bytes;
use crate::util::views_of;
use vstd::pervasive::VecAdditionalExecFns;

/// The mapping held by parallel key and count lists, later entries winning.
pub(crate) open spec fn pairs_map(ks: Seq<Seq<u8>>, cs: Seq<u64>) -> Map<Seq<u8>, u64>
    decreases ks.len(),
{
    if ks.len() == 0 || cs.len() == 0 {
        Map::empty()
    } else {
        pairs_map(ks.drop_last(), cs.drop_last()).insert(ks.last(), cs.last())
    }
}

/// A frequency table: a mapping from k-mer (a byte string) to its count.
/// Stored as parallel lists of distinct keys and their positive counts;
/// viewed as the mathematical map they spell out.
pub struct KmerTable {
    keys: Vec<Vec<u8>>,
    counts: Vec<u64>,
}

impl View for KmerTable {
    type V = Map<Seq<u8>, u64>;

    closed spec fn view(&self) -> Map<Seq<u8>, u64> {
        pairs_map(views_of(self.keys@), self.counts@)
    }
}

proof fn lemma_pairs_map_domain(ks: Seq<Seq<u8>>, cs: Seq<u64>, w: Seq<u8>)
    requires
        ks.len() == cs.len(),
    ensures
        pairs_map(ks, cs).contains_key(w) <==> exists|i: int| 0 <= i < ks.len() && ks[i] == w,
    decreases ks.len(),
{
    if ks.len() > 0 {
        lemma_pairs_map_domain(ks.drop_last(), cs.drop_last(), w);
        if pairs_map(ks, cs).contains_key(w) {
            if ks.last() == w {
                assert(ks[ks.len() - 1] == w);
            } else {
                let i = choose|i: int| 0 <= i < ks.len() - 1 && ks.drop_last()[i] == w;
                assert(ks[i] == w);
            }
        }
        if exists|i: int| 0 <= i < ks.len() && ks[i] == w {
            let i = choose|i: int| 0 <= i < ks.len() && ks[i] == w;
            if i < ks.len() - 1 {
                assert(ks.drop_last()[i] == w);
            }
        }
    }
}

proof fn lemma_pairs_map_index(ks: Seq<Seq<u8>>, cs: Seq<u64>, i: int)
    requires
        ks.len() == cs.len(),
        forall|p: int, q: int| #![trigger ks[p], ks[q]] 0 <= p < q < ks.len() ==> ks[p] != ks[q],
        0 <= i < ks.len(),
    ensures
        pairs_map(ks, cs).contains_key(ks[i]),
        pairs_map(ks, cs)[ks[i]] == cs[i],
    decreases ks.len(),
{
    if i == ks.len() - 1 {
        assert(ks.last() == ks[i]);
    } else {
        assert(forall|p: int, q: int|
            #![trigger ks.drop_last()[p], ks.drop_last()[q]]
            0 <= p < q < ks.len() - 1 ==> ks.drop_last()[p] != ks.drop_last()[q]);
        lemma_pairs_map_index(ks.drop_last(), cs.drop_last(), i);
        assert(ks.drop_last()[i] == ks[i]);
        assert(ks.last() != ks[i]);
    }
}

proof fn lemma_pairs_map_push(ks: Seq<Seq<u8>>, cs: Seq<u64>, k: Seq<u8>, c: u64)
    ensures
        pairs_map(ks.push(k), cs.push(c)) == pairs_map(ks, cs).insert(k, c),
{
    assert(ks.push(k).drop_last() =~= ks);
    assert(cs.push(c).drop_last() =~= cs);
}

proof fn lemma_pairs_map_update(ks: Seq<Seq<u8>>, cs: Seq<u64>, i: int, c: u64)
    requires
        ks.len() == cs.len(),
        forall|p: int, q: int| #![trigger ks[p], ks[q]] 0 <= p < q < ks.len() ==> ks[p] != ks[q],
        0 <= i < ks.len(),
    ensures
        pairs_map(ks, cs.update(i, c)) == pairs_map(ks, cs).insert(ks[i], c),
    decreases ks.len(),
{
    if i == ks.len() - 1 {
        assert(cs.update(i, c).drop_last() =~= cs.drop_last());
        assert(cs.update(i, c).last() == c);
        assert(ks.last() == ks[i]);
        assert(pairs_map(ks.drop_last(), cs.drop_last()).insert(ks[i], cs.last()).insert(ks[i], c)
            =~= pairs_map(ks.drop_last(), cs.drop_last()).insert(ks[i], c));
    } else {
        assert(cs.update(i, c).drop_last() =~= cs.drop_last().update(i, c));
        assert(cs.update(i, c).last() == cs.last());
        assert(forall|p: int, q: int|
            #![trigger ks.drop_last()[p], ks.drop_last()[q]]
            0 <= p < q < ks.len() - 1 ==> ks.drop_last()[p] != ks.drop_last()[q]);
        lemma_pairs_map_update(ks.drop_last(), cs.drop_last(), i, c);
        assert(ks.drop_last()[i] == ks[i]);
        assert(ks.last() != ks[i]);
        assert(pairs_map(ks.drop_last(), cs.drop_last()).insert(ks[i], c).insert(
            ks.last(),
            cs.last(),
        ) =~= pairs_map(ks.drop_last(), cs.drop_last()).insert(ks.last(), cs.last()).insert(
            ks[i],
            c,
        ));
    }
}

impl KmerTable {
    /// Well-formed: keys and counts run in parallel, keys are distinct, and
    /// every stored count is positive (a k-mer is listed only if it occurs).
    pub closed spec fn wf(&self) -> bool {
        &&& self.keys@.len() == self.counts@.len()
        &&& forall|i: int, j: int|
            #![trigger self.keys@[i], self.keys@[j]]
            0 <= i < j < self.keys@.len() ==> self.keys@[i]@ != self.keys@[j]@
        &&& forall|i: int| 0 <= i < self.counts@.len() ==> #[trigger] self.counts@[i] >= 1
    }

    /// The table's rows: each stored key with its stored count.
    pub closed spec fn spec_entries(&self) -> Seq<(Seq<u8>, u64)> {
        Seq::new(self.keys@.len(), |i: int| (self.keys@[i]@, self.counts@[i]))
    }

    proof fn lemma_view_keys(&self)
        requires
            self.wf(),
        ensures
            forall|i: int|
                0 <= i < self.keys@.len() ==> self@.contains_key(#[trigger] self.keys@[i]@)
                    && self@[self.keys@[i]@] == self.counts@[i],
            forall|w: Seq<u8>| #[trigger]
                self@.contains_key(w) <==> exists|i: int|
                    0 <= i < self.keys@.len() && self.keys@[i]@ == w,
    {
        let ks = views_of(self.keys@);
        assert forall|i: int|
            0 <= i < self.keys@.len() implies self@.contains_key(#[trigger] self.keys@[i]@)
            && self@[self.keys@[i]@] == self.counts@[i] by {
            lemma_pairs_map_index(ks, self.counts@, i);
        }
        assert forall|w: Seq<u8>| #[trigger]
            self@.contains_key(w) <==> exists|i: int|
                0 <= i < self.keys@.len() && self.keys@[i]@ == w by {
            lemma_pairs_map_domain(ks, self.counts@, w);
            if exists|i: int| 0 <= i < self.keys@.len() && self.keys@[i]@ == w {
                let i = choose|i: int| 0 <= i < self.keys@.len() && self.keys@[i]@ == w;
                assert(ks[i] == w);
            }
            if exists|i: int| 0 <= i < ks.len() && ks[i] == w {
                let i = choose|i: int| 0 <= i < ks.len() && ks[i] == w;
                assert(self.keys@[i]@ == w);
            }
        }
    }

    /// The rows of a well-formed table list exactly the mapping: distinct
    /// keys, each with the count the mapping holds for it, none missing.
    pub proof fn lemma_entries_match(&self)
        requires
            self.wf(),
        ensures
            self.spec_entries().len() == self@.dom().len(),
            forall|i: int, j: int|
                #![trigger self.spec_entries()[i], self.spec_entries()[j]]
                0 <= i < j < self.spec_entries().len() ==> self.spec_entries()[i].0
                    != self.spec_entries()[j].0,
            forall|i: int|
                0 <= i < self.spec_entries().len() ==> self@.contains_key(
                    (#[trigger] self.spec_entries()[i]).0,
                ) && self@[self.spec_entries()[i].0] == self.spec_entries()[i].1,
            forall|w: Seq<u8>| #[trigger]
                self@.contains_key(w) ==> exists|i: int|
                    0 <= i < self.spec_entries().len() && self.spec_entries()[i].0 == w,
    {
        self.lemma_view_keys();
        assert forall|w: Seq<u8>| #[trigger]
            self@.contains_key(w) implies exists|i: int|
            0 <= i < self.spec_entries().len() && self.spec_entries()[i].0 == w by {
            let i = choose|i: int| 0 <= i < self.keys@.len() && self.keys@[i]@ == w;
            assert(self.spec_entries()[i].0 == w);
        }
        self.lemma_dom_len(self.keys@.len() as int);
        assert(views_of(self.keys@).take(self.keys@.len() as int) =~= views_of(self.keys@));
        assert(self.counts@.take(self.keys@.len() as int) =~= self.counts@);
    }

    proof fn lemma_dom_len(&self, n: int)
        requires
            self.wf(),
            0 <= n <= self.keys@.len(),
        ensures
            pairs_map(views_of(self.keys@).take(n), self.counts@.take(n)).dom().finite(),
            pairs_map(views_of(self.keys@).take(n), self.counts@.take(n)).dom().len() == n,
        decreases n,
    {
        let ks = views_of(self.keys@).take(n);
        let cs = self.counts@.take(n);
        if n == 0 {
            assert(pairs_map(ks, cs).dom() =~= Set::<Seq<u8>>::empty());
        } else {
            self.lemma_dom_len(n - 1);
            assert(ks.drop_last() =~= views_of(self.keys@).take(n - 1));
            assert(cs.drop_last() =~= self.counts@.take(n - 1));
            let prev = pairs_map(ks.drop_last(), cs.drop_last());
            lemma_pairs_map_domain(ks.drop_last(), cs.drop_last(), ks.last());
            assert(!prev.contains_key(ks.last()));
            assert(pairs_map(ks, cs).dom() =~= prev.dom().insert(ks.last()));
        }
    }

    /// An empty table: it maps nothing.
    pub fn new() -> (t: KmerTable)
        ensures
            t.wf(),
            t@ == Map::<Seq<u8>, u64>::empty(),
    {
        let t = KmerTable { keys: Vec::new(), counts: Vec::new() };
        proof {
            assert(views_of(t.keys@).len() == 0);
        }
        t
    }

    fn find(&self, key: &Vec<u8>) -> (r: Option<usize>)
        ensures
            match r {
                Some(i) => i < self.keys@.len() && self.keys@[i as int]@ == key@,
                None => forall|i: int| 0 <= i < self.keys@.len() ==> self.keys@[i]@ != key@,
            },
    {
        let mut i: usize = 0;
        while i < self.keys.len()
            invariant
                i <= self.keys@.len(),
                forall|j: int| 0 <= j < i ==> self.keys@[j]@ != key@,
            decreases self.keys@.len() - i,
        {
            if bytes_eq(&self.keys[i], key) {
                return Some(i);
            }
            i += 1;
        }
        None
    }

    /// The count this table holds for `key`; zero when `key` is absent.
    pub fn get_count(&self, key: &Vec<u8>) -> (c: u64)
        requires
            self.wf(),
        ensures
            c as nat == count_at(self@, key@),
    {
        proof {
            self.lemma_view_keys();
        }
        match self.find(key) {
            Some(i) => self.counts[i],
            None => 0,
        }
    }

    /// Number of distinct k-mers the table holds.
    pub fn num_entries(&self) -> (n: usize)
        ensures
            n == self.spec_entries().len(),
    {
        self.keys.len()
    }

    /// The key of row `i`.
    pub fn entry_key(&self, i: usize) -> (k: &Vec<u8>)
        requires
            i < self.spec_entries().len(),
        ensures
            k@ == self.spec_entries()[i as int].0,
    {
        &self.keys[i]
    }

    /// The count of row `i`.
    pub fn entry_count(&self, i: usize) -> (c: u64)
        requires
            self.wf(),
            i < self.spec_entries().len(),
        ensures
            c == self.spec_entries()[i as int].1,
    {
        self.counts[i]
    }

    /// Adds `c` occurrences of `key`, creating the entry if it is absent.
    pub fn add_count(&mut self, key: &Vec<u8>, c: u64)
        requires
            old(self).wf(),
            c >= 1,
            count_at(old(self)@, key@) + c <= u64::MAX,
        ensures
            final(self).wf(),
            final(self)@ == old(self)@.insert(key@, (count_at(old(self)@, key@) + c) as u64),
    {
        proof {
            self.lemma_view_keys();
        }
        match self.find(key) {
            Some(i) => {
                let newc = self.counts[i] + c;
                self.counts.set(i, newc);
                proof {
                    lemma_pairs_map_update(views_of(old(self).keys@), old(self).counts@, i as int, newc);
                    assert(views_of(old(self).keys@)[i as int] == key@);
                }
            },
            None => {
                proof {
                    lemma_pairs_map_domain(views_of(self.keys@), self.counts@, key@);
                    assert forall|i: int| 0 <= i < views_of(self.keys@).len()
                        implies views_of(self.keys@)[i] != key@ by {
                        assert(self.keys@[i]@ != key@);
                    }
                    assert(!old(self)@.contains_key(key@));
                }
                let kcopy = copy_bytes(key);
                self.keys.push(kcopy);
                self.counts.push(c);
                proof {
                    assert(views_of(self.keys@) =~= views_of(old(self).keys@).push(key@));
                    lemma_pairs_map_push(views_of(old(self).keys@), old(self).counts@, key@, c);
                    assert forall|i: int, j: int|
                        #![trigger self.keys@[i], self.keys@[j]]
                        0 <= i < j < self.keys@.len() implies self.keys@[i]@ != self.keys@[j]@ by {
                        if j == self.keys@.len() - 1 {
                            assert(self.keys@[i] == old(self).keys@[i]);
                            assert(old(self).keys@[i]@ != key@);
                        } else {
                            assert(self.keys@[i] == old(self).keys@[i]);
                            assert(self.keys@[j] == old(self).keys@[j]);
                        }
                    }
                }
            },
        }
    }

    /// Folds another table into this one: afterwards this table holds, for
    /// every k-mer, the sum of what the two tables held for it.
    pub fn merge_from(&mut self, other: &KmerTable)
        requires
            old(self).wf(),
            other.wf(),
            forall|w: Seq<u8>|
                old(self)@.contains_key(w) && #[trigger] other@.contains_key(w) ==> old(self)@[w]
                    + other@[w] <= u64::MAX,
        ensures
            final(self).wf(),
            forall|w: Seq<u8>| #[trigger]
                final(self)@.contains_key(w) <==> (old(self)@.contains_key(w)
                    || other@.contains_key(w)),
            forall|w: Seq<u8>| #[trigger]
                final(self)@.contains_key(w) ==> final(self)@[w] as nat == count_at(old(self)@, w)
                    + count_at(other@, w),
    {
        proof {
            other.lemma_view_keys();
        }
        let n = other.keys.len();
        let mut i: usize = 0;
        while i < n
            invariant
                n == other.keys@.len(),
                other.wf(),
                self.wf(),
                i <= n,
                forall|j: int|
                    0 <= j < i ==> self@.contains_key(#[trigger] other.keys@[j]@)
                        && self@[other.keys@[j]@] as nat == count_at(old(self)@, other.keys@[j]@)
                        + other.counts@[j],
                forall|w: Seq<u8>|
                    !(exists|j: int| 0 <= j < i && #[trigger] other.keys@[j]@ == w) ==> ((
                    #[trigger] self@.contains_key(w) <==> old(self)@.contains_key(w)) && (
                    self@.contains_key(w) ==> self@[w] == old(self)@[w])),
                forall|w: Seq<u8>|
                    old(self)@.contains_key(w) && #[trigger] other@.contains_key(w) ==> old(
                        self,
                    )@[w] + other@[w] <= u64::MAX,
            decreases n - i,
        {
            let ghost key_v = other.keys@[i as int]@;
            let ghost prev = self@;
            proof {
                other.lemma_view_keys();
                assert(other@.contains_key(key_v));
                assert(other@[key_v] == other.counts@[i as int]);
                assert(!(exists|j: int| 0 <= j < i && #[trigger] other.keys@[j]@ == key_v));
                assert(count_at(prev, key_v) == count_at(old(self)@, key_v));
                assert(count_at(prev, key_v) + other.counts@[i as int] <= u64::MAX) by {
                    if old(self)@.contains_key(key_v) {
                        assert(old(self)@[key_v] + other@[key_v] <= u64::MAX);
                    }
                }
            }
            let c = other.counts[i];
            self.add_count(&other.keys[i], c);
            proof {
                assert(self@ == prev.insert(key_v, (count_at(prev, key_v) + c) as u64));
                assert forall|j: int|
                    0 <= j < i + 1 implies self@.contains_key(#[trigger] other.keys@[j]@)
                    && self@[other.keys@[j]@] as nat == count_at(old(self)@, other.keys@[j]@)
                    + other.counts@[j] by {
                    if j < i {
                        assert(other.keys@[j]@ != key_v);
                    } else {
                        assert(self@[key_v] as nat == count_at(old(self)@, key_v)
                            + other.counts@[i as int]);
                    }
                }
            }
            i += 1;
        }
        proof {
            other.lemma_view_keys();
            assert forall|w: Seq<u8>| #[trigger]
                self@.contains_key(w) <==> (old(self)@.contains_key(w)
                    || other@.contains_key(w)) by {
                if other@.contains_key(w) {
                    let j = choose|j: int| 0 <= j < other.keys@.len() && other.keys@[j]@ == w;
                    assert(self@.contains_key(w));
                }
            }
            assert forall|w: Seq<u8>| #[trigger]
                self@.contains_key(w) implies self@[w] as nat == count_at(old(self)@, w)
                + count_at(other@, w) by {
                if other@.contains_key(w) {
                    let j = choose|j: int| 0 <= j < other.keys@.len() && other.keys@[j]@ == w;
                    assert(self@[w] as nat == count_at(old(self)@, w) + other.counts@[j]);
                    assert(other@[w] == other.counts@[j]);
                } else {
                    assert(!(exists|j: int| 0 <= j < n && #[trigger] other.keys@[j]@ == w));
                }
            }
        }
    }

}

} // verus!
