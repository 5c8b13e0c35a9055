use vstd::prelude::*;

verus! {

/// The count that follows `c`; it stays at the largest value once that is reached.
pub open spec fn next_count(c: u8) -> u8 {
    if c < 255 {
        (c + 1) as u8
    } else {
        c
    }
}

/// How often `key` has been recorded in a table with the contents `m`.
pub open spec fn occurrences(m: Map<Seq<char>, u8>, key: Seq<char>) -> u8 {
    if m.contains_key(key) {
        m[key]
    } else {
        0
    }
}

/// Whether some position has been recorded at least `n` times.
pub open spec fn has_repetition(m: Map<Seq<char>, u8>, n: u8) -> bool {
    exists|k: Seq<char>| m.contains_key(k) && #[trigger] m[k] >= n
}

/// Counting an occurrence of `key` takes no position out of the table and lowers no count.
pub proof fn lemma_counts_only_grow(m: Map<Seq<char>, u8>, key: Seq<char>, other: Seq<char>)
    ensures
        occurrences(m.insert(key, next_count(occurrences(m, key))), other) >= occurrences(m, other),
        m.contains_key(other) ==> m.insert(key, next_count(occurrences(m, key))).contains_key(
            other,
        ),
        occurrences(m.insert(key, next_count(occurrences(m, key))), key) >= 1,
{
}

/// Occurrence counts of positions, keyed by the text that identifies a position.
/// Entries are added and counted up, never removed.
#[derive(Debug)]
pub struct RepetitionTable {
    keys: Vec<String>,
    counts: Vec<u8>,
}

impl View for RepetitionTable {
    type V = Map<Seq<char>, u8>;

    closed spec fn view(&self) -> Map<Seq<char>, u8> {
        Map::new(
            |k: Seq<char>|
                exists|i: int| 0 <= i < self.keys@.len() && #[trigger] self.keys@[i]@ == k,
            |k: Seq<char>| self.counts@[self.index_of(k)],
        )
    }
}

impl RepetitionTable {
    /// The place at which the key `k` stands.
    spec fn index_of(&self, k: Seq<char>) -> int {
        choose|i: int| 0 <= i < self.keys@.len() && #[trigger] self.keys@[i]@ == k
    }

    /// No key is stored twice, and every key has its count.
    pub closed spec fn wf(&self) -> bool {
        &&& self.keys@.len() == self.counts@.len()
        &&& forall|i: int, j: int|
            0 <= i < j < self.keys@.len() ==> #[trigger] self.keys@[i]@ != #[trigger] self.keys@[j]@
    }

    /// The entry at place `i` is in the table with its count.
    proof fn lemma_entry(&self, i: int)
        requires
            self.wf(),
            0 <= i < self.keys@.len(),
        ensures
            self@.contains_key(self.keys@[i]@),
            self@[self.keys@[i]@] == self.counts@[i],
    {
        let k = self.keys@[i]@;
        let j = self.index_of(k);
        assert(0 <= j < self.keys@.len() && self.keys@[j]@ == k);
        if i < j {
            assert(self.keys@[i]@ != self.keys@[j]@);
        }
        if j < i {
            assert(self.keys@[j]@ != self.keys@[i]@);
        }
    }

    /// The table without any entry.
    pub fn new() -> (t: RepetitionTable)
        ensures
            t.wf(),
            t@ == Map::<Seq<char>, u8>::empty(),
    {
        let t = RepetitionTable { keys: Vec::new(), counts: Vec::new() };
        assert(t@ =~= Map::<Seq<char>, u8>::empty());
        t
    }

    /// The place of `key` in the table, if it stands there.
    fn find(&self, key: &String) -> (r: Option<usize>)
        requires
            self.wf(),
        ensures
            match r {
                Some(i) => i < self.keys@.len() && self.keys@[i as int]@ == key@,
                None => !self@.contains_key(key@),
            },
    {
        let mut i: usize = 0;
        while i < self.keys.len()
            invariant
                i <= self.keys@.len(),
                forall|j: int| 0 <= j < i ==> #[trigger] self.keys@[j]@ != key@,
            decreases self.keys.len() - i,
        {
            if self.keys[i] == *key {
                return Some(i);
            }
            i += 1;
        }
        None
    }

    /// How often `key` has been recorded.
    pub fn count(&self, key: &String) -> (n: u8)
        requires
            self.wf(),
        ensures
            n == occurrences(self@, key@),
    {
        match self.find(key) {
            Some(i) => {
                proof {
                    self.lemma_entry(i as int);
                }
                self.counts[i]
            },
            None => 0,
        }
    }

    /// Records one more occurrence of `key`.
    pub fn record(&mut self, key: String)
        requires
            old(self).wf(),
        ensures
            final(self).wf(),
            final(self)@ == old(self)@.insert(key@, next_count(occurrences(old(self)@, key@))),
    {
        match self.find(&key) {
            Some(i) => {
                let c = self.counts[i];
                let n: u8 = if c < 255 {
                    c + 1
                } else {
                    c
                };
                proof {
                    self.lemma_entry(i as int);
                }
                self.counts.set(i, n);
                proof {
                    assert forall|k: Seq<char>| #[trigger] self@.contains_key(k) implies self@[k]
                        == old(self)@.insert(key@, n)[k] by {
                        let j = self.index_of(k);
                        self.lemma_entry(j);
                        old(self).lemma_entry(j);
                        if k == key@ {
                            self.lemma_entry(i as int);
                        }
                    }
                    assert(self@ =~= old(self)@.insert(key@, n));
                }
            },
            None => {
                self.keys.push(key);
                self.counts.push(1);
                proof {
                    let last = old(self).keys@.len() as int;
                    assert(self.keys@[last]@ == key@);
                    assert forall|i: int, j: int|
                        0 <= i < j < self.keys@.len() implies #[trigger] self.keys@[i]@
                        != #[trigger] self.keys@[j]@ by {
                        if j == last {
                            assert(old(self).keys@[i]@ == self.keys@[i]@);
                            assert(old(self)@.contains_key(self.keys@[i]@));
                        }
                    }
                    assert forall|k: Seq<char>| #[trigger] self@.contains_key(k) implies self@[k]
                        == old(self)@.insert(key@, 1u8)[k] by {
                        let j = self.index_of(k);
                        self.lemma_entry(j);
                        if j < last {
                            old(self).lemma_entry(j);
                        }
                    }
                    assert forall|k: Seq<char>|
                        old(self)@.contains_key(k) implies #[trigger] self@.contains_key(k) by {
                        let j = old(self).index_of(k);
                        assert(self.keys@[j]@ == k);
                    }
                    assert(self@ =~= old(self)@.insert(key@, 1u8));
                }
            },
        }
    }

    /// The largest count in the table; 0 where the table is empty.
    pub fn max_count(&self) -> (m: u8)
        requires
            self.wf(),
        ensures
            forall|k: Seq<char>| self@.contains_key(k) ==> #[trigger] self@[k] <= m,
            m > 0 ==> exists|k: Seq<char>| self@.contains_key(k) && #[trigger] self@[k] == m,
            forall|n: u8| n > 0 ==> (has_repetition(self@, n) <==> n <= m),
    {
        let mut m: u8 = 0;
        let mut i: usize = 0;
        while i < self.counts.len()
            invariant
                self.wf(),
                i <= self.counts@.len(),
                forall|j: int| 0 <= j < i ==> self.counts@[j] <= m,
                m > 0 ==> exists|j: int| 0 <= j < i && self.counts@[j] == m,
            decreases self.counts.len() - i,
        {
            if self.counts[i] > m {
                m = self.counts[i];
            }
            i += 1;
        }
        proof {
            assert forall|k: Seq<char>| self@.contains_key(k) implies #[trigger] self@[k] <= m by {
                self.lemma_entry(self.index_of(k));
            }
            if m > 0 {
                let j = choose|j: int| 0 <= j < i && self.counts@[j] == m;
                self.lemma_entry(j);
                assert(self@.contains_key(self.keys@[j]@) && self@[self.keys@[j]@] == m);
            }
        }
        m
    }
}

} // verus!
