use vstd::prelude::*;
use crate::bytes::{
    bytes_less, copy_bytes, lemma_lex_irreflexive, lemma_lex_total, lemma_lex_transitive, lex_less,
    same_bytes,
};
use crate::rows::{lemma_insert_row, lemma_rows_map, rows_map};

verus! {

/// One row of a [`HashIndex`]: a hash and the level that it stands for.
pub struct HashEntry {
    pub hash: Vec<u8>,
    pub level: i32,
}

/// Every hash comes before all hashes behind it, in the order of a dictionary.
pub open spec fn lex_ascending(keys: Seq<Seq<u8>>) -> bool {
    forall|i: int, j: int| 0 <= i < j < keys.len() ==> lex_less(keys[i], keys[j])
}

/// Hashes in ascending order are pairwise distinct.
pub proof fn lemma_lex_ascending_distinct(keys: Seq<Seq<u8>>)
    requires
        lex_ascending(keys),
    ensures
        keys.no_duplicates(),
{
    assert forall|i: int, j: int| 0 <= i < keys.len() && 0 <= j < keys.len() && i != j implies keys[i]
        != keys[j] by {
        lemma_lex_irreflexive(keys[i]);
        if i < j {
            assert(lex_less(keys[i], keys[j]));
        } else {
            assert(lex_less(keys[j], keys[i]));
        }
    }
}

/// The rows of `m` whose level lies between `lo` and `hi`, both included.
pub open spec fn with_levels_between(m: Map<Seq<u8>, int>, lo: int, hi: int) -> Map<Seq<u8>, int> {
    Map::new(|h: Seq<u8>| m.contains_key(h) && lo <= m[h] <= hi, |h: Seq<u8>| m[h])
}

/// An index from hash to level: at most one level per hash, kept in the order of the hashes,
/// so that a hash is found by bisection.
pub struct HashIndex {
    entries: Vec<HashEntry>,
}

impl View for HashIndex {
    type V = Map<Seq<u8>, int>;

    closed spec fn view(&self) -> Map<Seq<u8>, int> {
        rows_map(self.keys(), self.levels())
    }
}

impl HashIndex {
    /// The hashes present, in ascending order.
    pub closed spec fn keys(&self) -> Seq<Seq<u8>> {
        Seq::new(self.entries@.len(), |i: int| self.entries@[i].hash@)
    }

    /// The levels, in the order of `keys`.
    pub closed spec fn levels(&self) -> Seq<int> {
        Seq::new(self.entries@.len(), |i: int| self.entries@[i].level as int)
    }

    /// The representation invariant: the hashes ascend strictly.
    #[verifier::type_invariant]
    pub open spec fn wf(&self) -> bool {
        lex_ascending(self.keys())
    }

    /// How the positions relate to the index: position `i` holds the level of hash `keys()[i]`,
    /// and every hash of the index has a position.
    pub proof fn lemma_positions(&self)
        requires
            self.wf(),
        ensures
            self.keys().len() == self.levels().len(),
            self@.dom() =~= self.keys().to_set(),
            self@.dom().finite(),
            self@.dom().len() == self.keys().len(),
            forall|i: int|
                0 <= i < self.keys().len() ==> self@.contains_key(#[trigger] self.keys()[i])
                    && self@[self.keys()[i]] == self.levels()[i],
            forall|h: Seq<u8>| self@.contains_key(h) ==> i32::MIN <= #[trigger] self@[h] <= i32::MAX,
    {
        lemma_lex_ascending_distinct(self.keys());
        lemma_rows_map(self.keys(), self.levels());
        assert forall|h: Seq<u8>| self@.contains_key(h) implies i32::MIN <= #[trigger] self@[h]
            <= i32::MAX by {
            let i = choose|i: int| 0 <= i < self.keys().len() && self.keys()[i] == h;
            assert(self@[self.keys()[i]] == self.levels()[i]);
        }
    }

    /// An empty index.
    pub fn new() -> (index: Self)
        ensures
            index@ == Map::<Seq<u8>, int>::empty(),
    {
        let index = HashIndex { entries: Vec::new() };
        assert(index.keys() =~= Seq::<Seq<u8>>::empty());
        assert(index@ =~= Map::<Seq<u8>, int>::empty());
        index
    }

    /// The first position whose hash does not come before `hash`, by bisection.
    fn lower_bound(&self, hash: &Vec<u8>) -> (i: usize)
        ensures
            i <= self.keys().len(),
            forall|j: int| 0 <= j < i ==> lex_less(self.keys()[j], hash@),
            forall|j: int| i <= j < self.keys().len() ==> !lex_less(self.keys()[j], hash@),
    {
        proof {
            use_type_invariant(self);
        }
        let mut lo: usize = 0;
        let mut hi: usize = self.entries.len();
        while lo < hi
            invariant
                lo <= hi <= self.keys().len(),
                self.keys().len() == self.entries@.len(),
                self.wf(),
                forall|j: int| 0 <= j < lo ==> lex_less(self.keys()[j], hash@),
                forall|j: int| hi <= j < self.keys().len() ==> !lex_less(self.keys()[j], hash@),
            decreases hi - lo,
        {
            let mid: usize = lo + (hi - lo) / 2;
            assert(self.keys()[mid as int] == self.entries@[mid as int].hash@);
            if bytes_less(&self.entries[mid].hash, hash) {
                proof {
                    assert forall|j: int| 0 <= j < mid + 1 implies lex_less(
                        self.keys()[j],
                        hash@,
                    ) by {
                        if j < mid {
                            assert(lex_less(self.keys()[j], self.keys()[mid as int]));
                            lemma_lex_transitive(self.keys()[j], self.keys()[mid as int], hash@);
                        }
                    }
                }
                lo = mid + 1;
            } else {
                proof {
                    assert forall|j: int| mid <= j < self.keys().len() implies !lex_less(
                        self.keys()[j],
                        hash@,
                    ) by {
                        if j > mid && lex_less(self.keys()[j], hash@) {
                            assert(lex_less(self.keys()[mid as int], self.keys()[j]));
                            lemma_lex_transitive(self.keys()[mid as int], self.keys()[j], hash@);
                        }
                    }
                }
                hi = mid;
            }
        }
        lo
    }

    /// Where `hash` is not at position `i`, the first that does not come before it, the index
    /// does not have it, and it comes before every hash from `i` on.
    proof fn lemma_absent(&self, hash: Seq<u8>, i: int)
        requires
            self.wf(),
            0 <= i <= self.keys().len(),
            forall|j: int| 0 <= j < i ==> lex_less(self.keys()[j], hash),
            forall|j: int| i <= j < self.keys().len() ==> !lex_less(self.keys()[j], hash),
            i < self.keys().len() ==> self.keys()[i] != hash,
        ensures
            !self.keys().contains(hash),
            forall|j: int| i <= j < self.keys().len() ==> lex_less(hash, self.keys()[j]),
    {
        lemma_lex_irreflexive(hash);
        assert forall|j: int| i <= j < self.keys().len() implies lex_less(hash, self.keys()[j]) by {
            lemma_lex_total(hash, self.keys()[j]);
            if j > i && self.keys()[j] == hash {
                assert(lex_less(self.keys()[i], self.keys()[j]));
            }
        }
        if self.keys().contains(hash) {
            let j = choose|j: int| 0 <= j < self.keys().len() && self.keys()[j] == hash;
            if j >= i {
                assert(lex_less(hash, self.keys()[j]));
            }
        }
    }

    /// The level that `hash` stands for.
    pub fn get(&self, hash: &Vec<u8>) -> (found: Option<i32>)
        ensures
            match found {
                Some(level) => self@.contains_key(hash@) && self@[hash@] == level,
                None => !self@.contains_key(hash@),
            },
    {
        proof {
            use_type_invariant(self);
            self.lemma_positions();
        }
        let i: usize = self.lower_bound(hash);
        if i < self.entries.len() && same_bytes(&self.entries[i].hash, hash) {
            proof {
                assert(self.keys()[i as int] == hash@);
                assert(self.levels()[i as int] == self.entries@[i as int].level);
            }
            Some(self.entries[i].level)
        } else {
            proof {
                if i < self.keys().len() {
                    assert(self.keys()[i as int] == self.entries@[i as int].hash@);
                }
                self.lemma_absent(hash@, i as int);
            }
            None
        }
    }

    /// Adds `hash` with `level` unless the index has the hash. Returns whether it was added.
    pub fn insert_new(&mut self, hash: Vec<u8>, level: i32) -> (added: bool)
        ensures
            added == !old(self)@.contains_key(hash@),
            added ==> final(self)@ == old(self)@.insert(hash@, level as int),
            !added ==> final(self)@ == old(self)@,
    {
        proof {
            use_type_invariant(&*self);
            self.lemma_positions();
        }
        let i: usize = self.lower_bound(&hash);
        if i < self.entries.len() && same_bytes(&self.entries[i].hash, &hash) {
            proof {
                assert(self.keys()[i as int] == hash@);
            }
            return false;
        }
        proof {
            if i < self.keys().len() {
                assert(self.keys()[i as int] == self.entries@[i as int].hash@);
            }
            self.lemma_absent(hash@, i as int);
            lemma_lex_ascending_distinct(self.keys());
            lemma_insert_row(self.keys(), self.levels(), i as int, hash@, level as int);
            let nk = self.keys().insert(i as int, hash@);
            assert forall|a: int, b: int| 0 <= a < b < nk.len() implies lex_less(nk[a], nk[b]) by {
                if a < i && b > i {
                    assert(nk[a] == self.keys()[a] && nk[b] == self.keys()[b - 1]);
                } else if a == i {
                    assert(nk[b] == self.keys()[b - 1]);
                } else if b == i {
                    assert(nk[a] == self.keys()[a]);
                } else if b < i {
                    assert(nk[a] == self.keys()[a] && nk[b] == self.keys()[b]);
                } else {
                    assert(nk[a] == self.keys()[a - 1] && nk[b] == self.keys()[b - 1]);
                }
            }
        }
        let ghost hash_view = hash@;
        let mut entries: Vec<HashEntry> = Vec::new();
        core::mem::swap(&mut self.entries, &mut entries);
        entries.insert(i, HashEntry { hash, level });
        proof {
            let nk = Seq::new(entries@.len(), |j: int| entries@[j].hash@);
            let nv = Seq::new(entries@.len(), |j: int| entries@[j].level as int);
            assert(nk =~= old(self).keys().insert(i as int, hash_view));
            assert(nv =~= old(self).levels().insert(i as int, level as int));
        }
        self.entries = entries;
        true
    }

    /// Keeps the hashes whose level lies between `lo` and `hi`, both included, and drops the
    /// others.
    pub fn retain_levels(&mut self, lo: i32, hi: i32)
        ensures
            final(self)@ == with_levels_between(old(self)@, lo as int, hi as int),
    {
        proof {
            use_type_invariant(&*self);
            self.lemma_positions();
        }
        let mut source: Vec<HashEntry> = Vec::new();
        core::mem::swap(&mut self.entries, &mut source);
        let ghost keys = old(self).keys();
        let ghost levels = old(self).levels();
        let mut kept: Vec<HashEntry> = Vec::new();
        let ghost mut origin: Seq<int> = Seq::empty();
        let mut i: usize = 0;
        while i < source.len()
            invariant
                i <= source.len(),
                keys.len() == source@.len(),
                levels.len() == source@.len(),
                forall|j: int| 0 <= j < source@.len() ==> keys[j] == source@[j].hash@,
                forall|j: int| 0 <= j < source@.len() ==> levels[j] == source@[j].level,
                lex_ascending(keys),
                origin.len() == kept@.len(),
                forall|a: int| 0 <= a < origin.len() ==> 0 <= #[trigger] origin[a] < i,
                forall|a: int, b: int| 0 <= a < b < origin.len() ==> origin[a] < origin[b],
                forall|a: int|
                    0 <= a < kept@.len() ==> (#[trigger] kept@[a]).hash@ == keys[origin[a]]
                        && kept@[a].level == levels[origin[a]] && lo <= kept@[a].level <= hi,
                forall|j: int| 0 <= j < i && lo <= levels[j] <= hi ==> origin.contains(j),
            decreases source.len() - i,
        {
            let level: i32 = source[i].level;
            if lo <= level && level <= hi {
                let hash: Vec<u8> = copy_bytes(&source[i].hash);
                kept.push(HashEntry { hash, level });
                proof {
                    let before = origin;
                    origin = origin.push(i as int);
                    assert forall|j: int| 0 <= j < i + 1 && lo <= levels[j] <= hi implies origin.contains(
                        j,
                    ) by {
                        if j < i {
                            assert(before.contains(j));
                            let a = choose|a: int| 0 <= a < before.len() && before[a] == j;
                            assert(origin[a] == j);
                        } else {
                            assert(origin[origin.len() - 1] == j);
                        }
                    }
                }
            }
            i += 1;
        }
        proof {
            let nk = Seq::new(kept@.len(), |j: int| kept@[j].hash@);
            let nv = Seq::new(kept@.len(), |j: int| kept@[j].level as int);
            assert forall|a: int, b: int| 0 <= a < b < nk.len() implies lex_less(nk[a], nk[b]) by {
                assert(nk[a] == kept@[a].hash@ && nk[b] == kept@[b].hash@);
                assert(origin[a] < origin[b]);
            }
            lemma_lex_ascending_distinct(keys);
            lemma_lex_ascending_distinct(nk);
            lemma_rows_map(keys, levels);
            lemma_rows_map(nk, nv);
            let old_map = rows_map(keys, levels);
            let new_map = rows_map(nk, nv);
            let want = with_levels_between(old_map, lo as int, hi as int);
            assert forall|h: Seq<u8>| new_map.contains_key(h) <==> want.contains_key(h) by {
                if new_map.contains_key(h) {
                    let a = choose|a: int| 0 <= a < nk.len() && nk[a] == h;
                    assert(kept@[a].hash@ == keys[origin[a]]);
                    assert(old_map[keys[origin[a]]] == levels[origin[a]]);
                }
                if want.contains_key(h) {
                    let j = choose|j: int| 0 <= j < keys.len() && keys[j] == h;
                    assert(old_map[keys[j]] == levels[j]);
                    assert(origin.contains(j));
                    let a = choose|a: int| 0 <= a < origin.len() && origin[a] == j;
                    assert(nk[a] == kept@[a].hash@);
                }
            }
            assert forall|h: Seq<u8>| new_map.contains_key(h) implies new_map[h] == want[h] by {
                let a = choose|a: int| 0 <= a < nk.len() && nk[a] == h;
                assert(new_map[nk[a]] == nv[a]);
                assert(kept@[a].hash@ == keys[origin[a]]);
                assert(old_map[keys[origin[a]]] == levels[origin[a]]);
            }
            assert(new_map =~= want);
        }
        self.entries = kept;
    }
}

} // verus!
