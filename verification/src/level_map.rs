use vstd::prelude::*;
use vstd::set_lib::{lemma_int_range, lemma_len_subset, set_int_range};
use crate::rows::{
    keys_where, lemma_count_rows, lemma_insert_row, lemma_remove_row, lemma_rows_map,
    lemma_update_row, rows_map,
};
use crate::model::{
    base_of, lemma_base_unique, lemma_empty_has_no_bounds, lemma_top_unique, levels_above,
    levels_below, top_of, without_above, without_below,
};

verus! {

/// One row of a [`LevelMap`]: a level and what is stored under it.
pub struct Entry<V> {
    pub key: i32,
    pub val: V,
}

/// Every key is smaller than all keys behind it.
pub open spec fn ascending(keys: Seq<int>) -> bool {
    forall|i: int, j: int| 0 <= i < j < keys.len() ==> keys[i] < keys[j]
}

/// Ascending keys are pairwise distinct.
pub proof fn lemma_ascending_distinct(keys: Seq<int>)
    requires
        ascending(keys),
    ensures
        keys.no_duplicates(),
{
    assert forall|i: int, j: int| 0 <= i < keys.len() && 0 <= j < keys.len() && i != j implies keys[i]
        != keys[j] by {
        if i < j {
            assert(keys[i] < keys[j]);
        } else {
            assert(keys[j] < keys[i]);
        }
    }
}

/// A finite set of levels that a 32-bit number can hold has at most as many members as there
/// are such numbers.
pub proof fn lemma_level_count(levels: Set<int>)
    requires
        levels.finite(),
        forall|k: int| levels.contains(k) ==> i32::MIN <= k <= i32::MAX,
    ensures
        levels.len() <= 0x1_0000_0000,
{
    let all = set_int_range(i32::MIN as int, i32::MAX as int + 1);
    lemma_int_range(i32::MIN as int, i32::MAX as int + 1);
    assert(levels.subset_of(all));
    lemma_len_subset(levels, all);
}

/// A key put between the smaller and the greater keys leaves the keys ascending.
pub proof fn lemma_ascending_insert(keys: Seq<int>, i: int, key: int)
    requires
        ascending(keys),
        0 <= i <= keys.len(),
        forall|j: int| 0 <= j < i ==> keys[j] < key,
        forall|j: int| i <= j < keys.len() ==> keys[j] > key,
    ensures
        ascending(keys.insert(i, key)),
        !keys.contains(key),
{
    let nk = keys.insert(i, key);
    assert forall|a: int, b: int| 0 <= a < b < nk.len() implies nk[a] < nk[b] by {
        if a < i && b > i {
            assert(nk[a] == keys[a] && nk[b] == keys[b - 1]);
        }
    }
}

/// Where position `i` parts the keys up to `level` from those above it, the first `i` positions
/// are the table without its rows above `level`, and the others are as many as those rows.
pub proof fn lemma_front_rows<W>(keys: Seq<int>, vals: Seq<W>, i: int, level: int)
    requires
        ascending(keys),
        keys.len() == vals.len(),
        0 <= i <= keys.len(),
        forall|j: int| 0 <= j < i ==> keys[j] <= level,
        forall|j: int| i <= j < keys.len() ==> keys[j] > level,
    ensures
        ascending(keys.subrange(0, i)),
        rows_map(keys.subrange(0, i), vals.subrange(0, i)) =~= without_above(
            rows_map(keys, vals),
            level,
        ),
        levels_above(rows_map(keys, vals), level).finite(),
        levels_above(rows_map(keys, vals), level).len() == keys.len() - i,
{
    let nk = keys.subrange(0, i);
    let nv = vals.subrange(0, i);
    let rest = keys.subrange(i, keys.len() as int);
    assert(ascending(nk));
    lemma_ascending_distinct(keys);
    lemma_ascending_distinct(nk);
    lemma_rows_map(keys, vals);
    lemma_rows_map(nk, nv);
    let old_map = rows_map(keys, vals);
    let new_map = rows_map(nk, nv);
    assert forall|k: int| new_map.contains_key(k) <==> without_above(old_map, level).contains_key(
        k,
    ) by {
        if new_map.contains_key(k) {
            let a = choose|a: int| 0 <= a < nk.len() && nk[a] == k;
            assert(keys[a] == k);
        }
        if old_map.contains_key(k) && k <= level {
            let j = choose|j: int| 0 <= j < keys.len() && keys[j] == k;
            assert(nk[j] == k);
        }
    }
    assert forall|k: int| new_map.contains_key(k) implies new_map[k] == without_above(
        old_map,
        level,
    )[k] by {
        let a = choose|a: int| 0 <= a < nk.len() && nk[a] == k;
        assert(new_map[nk[a]] == nv[a]);
        assert(old_map[keys[a]] == vals[a]);
    }
    assert(ascending(rest));
    lemma_ascending_distinct(rest);
    rest.unique_seq_to_set();
    assert forall|k: int| rest.to_set().contains(k) <==> levels_above(old_map, level).contains(
        k,
    ) by {
        if rest.to_set().contains(k) {
            let a = choose|a: int| 0 <= a < rest.len() && rest[a] == k;
            assert(keys[a + i] == k);
        }
        if old_map.contains_key(k) && k > level {
            let j = choose|j: int| 0 <= j < keys.len() && keys[j] == k;
            assert(rest[j - i] == k);
        }
    }
    assert(rest.to_set() =~= levels_above(old_map, level));
}

/// Where position `i` parts the keys below `level` from the others, the positions from `i` on
/// are the table without its rows below `level`, and the first `i` are as many as those rows.
pub proof fn lemma_back_rows<W>(keys: Seq<int>, vals: Seq<W>, i: int, level: int)
    requires
        ascending(keys),
        keys.len() == vals.len(),
        0 <= i <= keys.len(),
        forall|j: int| 0 <= j < i ==> keys[j] < level,
        forall|j: int| i <= j < keys.len() ==> keys[j] >= level,
    ensures
        ascending(keys.subrange(i, keys.len() as int)),
        rows_map(keys.subrange(i, keys.len() as int), vals.subrange(i, vals.len() as int))
            =~= without_below(rows_map(keys, vals), level),
        levels_below(rows_map(keys, vals), level).finite(),
        levels_below(rows_map(keys, vals), level).len() == i,
{
    let nk = keys.subrange(i, keys.len() as int);
    let nv = vals.subrange(i, vals.len() as int);
    let rest = keys.subrange(0, i);
    assert(ascending(nk));
    lemma_ascending_distinct(keys);
    lemma_ascending_distinct(nk);
    lemma_rows_map(keys, vals);
    lemma_rows_map(nk, nv);
    let old_map = rows_map(keys, vals);
    let new_map = rows_map(nk, nv);
    assert forall|k: int| new_map.contains_key(k) <==> without_below(old_map, level).contains_key(
        k,
    ) by {
        if new_map.contains_key(k) {
            let a = choose|a: int| 0 <= a < nk.len() && nk[a] == k;
            assert(keys[a + i] == k);
        }
        if old_map.contains_key(k) && k >= level {
            let j = choose|j: int| 0 <= j < keys.len() && keys[j] == k;
            assert(nk[j - i] == k);
        }
    }
    assert forall|k: int| new_map.contains_key(k) implies new_map[k] == without_below(
        old_map,
        level,
    )[k] by {
        let a = choose|a: int| 0 <= a < nk.len() && nk[a] == k;
        assert(new_map[nk[a]] == nv[a]);
        assert(keys[a + i] == k);
        assert(old_map[keys[a + i]] == vals[a + i]);
    }
    assert(ascending(rest));
    lemma_ascending_distinct(rest);
    rest.unique_seq_to_set();
    assert forall|k: int| rest.to_set().contains(k) <==> levels_below(old_map, level).contains(
        k,
    ) by {
        if rest.to_set().contains(k) {
            let a = choose|a: int| 0 <= a < rest.len() && rest[a] == k;
            assert(keys[a] == k);
        }
        if old_map.contains_key(k) && k < level {
            let j = choose|j: int| 0 <= j < keys.len() && keys[j] == k;
            assert(rest[j] == k);
        }
    }
    assert(rest.to_set() =~= levels_below(old_map, level));
}

/// The levels that a list names.
pub open spec fn level_set(levels: Seq<i32>) -> Set<int> {
    Set::new(|k: int| exists|a: int| 0 <= a < levels.len() && levels[a] == k)
}

/// A table keyed by level: at most one row per level, kept in ascending order of level.
pub struct LevelMap<V> {
    entries: Vec<Entry<V>>,
}

impl<V> LevelMap<V> {
    /// The levels present, ascending.
    pub closed spec fn keys(&self) -> Seq<int> {
        Seq::new(self.entries@.len(), |i: int| self.entries@[i].key as int)
    }

    /// The representation invariant: the keys ascend strictly.
    #[verifier::type_invariant]
    pub open spec fn wf(&self) -> bool {
        ascending(self.keys())
    }
}

impl<V: View> View for LevelMap<V> {
    type V = Map<int, V::V>;

    closed spec fn view(&self) -> Map<int, V::V> {
        rows_map(self.keys(), self.vals())
    }
}

impl<V: View> LevelMap<V> {
    /// The stored values, in the order of `keys`.
    pub closed spec fn vals(&self) -> Seq<V::V> {
        Seq::new(self.entries@.len(), |i: int| self.entries@[i].val@)
    }

    /// How the positions relate to the table: position `i` holds the row of level `keys()[i]`,
    /// and every level of the table has a position.
    pub proof fn lemma_positions(&self)
        requires
            self.wf(),
        ensures
            self.keys().len() == self.vals().len(),
            self@.dom() =~= self.keys().to_set(),
            self@.dom().finite(),
            self@.dom().len() == self.keys().len(),
            forall|i: int|
                0 <= i < self.keys().len() ==> self@.contains_key(#[trigger] self.keys()[i])
                    && self@[self.keys()[i]] == self.vals()[i],
            forall|i: int| 0 <= i < self.keys().len() ==> i32::MIN <= #[trigger] self.keys()[i] <= i32::MAX,
    {
        lemma_ascending_distinct(self.keys());
        lemma_rows_map(self.keys(), self.vals());
    }

    /// As many levels have a row that passes a test as there are positions whose value
    /// passes it.
    pub proof fn lemma_count_where(&self, test: spec_fn(V::V) -> bool)
        requires
            self.wf(),
        ensures
            keys_where(self@, test).finite(),
            keys_where(self@, test).len() == self.vals().filter(test).len(),
    {
        lemma_ascending_distinct(self.keys());
        lemma_count_rows(self.keys(), self.vals(), test);
    }

    /// An empty table.
    pub fn new() -> (m: Self)
        ensures
            m@ == Map::<int, V::V>::empty(),
            m.keys() == Seq::<int>::empty(),
    {
        let m = LevelMap { entries: Vec::new() };
        assert(m.keys() =~= Seq::<int>::empty());
        assert(m@ =~= Map::<int, V::V>::empty());
        m
    }

    /// The number of rows.
    pub fn len(&self) -> (n: usize)
        ensures
            n == self.keys().len(),
            n == self@.dom().len(),
    {
        proof {
            use_type_invariant(self);
            self.lemma_positions();
        }
        self.entries.len()
    }

    /// The number of rows, as a signed number.
    pub fn count(&self) -> (n: i64)
        ensures
            n == self@.dom().len(),
    {
        proof {
            use_type_invariant(self);
            self.lemma_positions();
            lemma_level_count(self@.dom());
        }
        let n: usize = self.entries.len();
        n as i64
    }

    /// The level at position `i`.
    pub fn key_at(&self, i: usize) -> (key: i32)
        requires
            i < self.keys().len(),
        ensures
            key == self.keys()[i as int],
    {
        self.entries[i].key
    }

    /// The value at position `i`.
    pub fn val_at(&self, i: usize) -> (val: &V)
        requires
            i < self.keys().len(),
        ensures
            val@ == self.vals()[i as int],
    {
        &self.entries[i].val
    }

    /// The first position whose level is at least `key`, by bisection.
    pub fn lower_bound(&self, key: i32) -> (i: usize)
        ensures
            i <= self.keys().len(),
            forall|j: int| 0 <= j < i ==> self.keys()[j] < key,
            forall|j: int| i <= j < self.keys().len() ==> self.keys()[j] >= key,
    {
        proof {
            use_type_invariant(self);
        }
        let mut lo: usize = 0;
        let mut hi: usize = self.entries.len();
        while lo < hi
            invariant
                lo <= hi <= self.keys().len(),
                self.keys().len() == self.entries@.len(),
                self.wf(),
                forall|j: int| 0 <= j < lo ==> self.keys()[j] < key,
                forall|j: int| hi <= j < self.keys().len() ==> self.keys()[j] >= key,
            decreases hi - lo,
        {
            let mid: usize = lo + (hi - lo) / 2;
            assert(self.keys()[mid as int] == self.entries@[mid as int].key);
            if self.entries[mid].key < key {
                lo = mid + 1;
            } else {
                hi = mid;
            }
        }
        lo
    }

    /// The first position whose level is greater than `key`, by bisection.
    pub fn upper_bound(&self, key: i32) -> (i: usize)
        ensures
            i <= self.keys().len(),
            forall|j: int| 0 <= j < i ==> self.keys()[j] <= key,
            forall|j: int| i <= j < self.keys().len() ==> self.keys()[j] > key,
    {
        proof {
            use_type_invariant(self);
        }
        let mut lo: usize = 0;
        let mut hi: usize = self.entries.len();
        while lo < hi
            invariant
                lo <= hi <= self.keys().len(),
                self.keys().len() == self.entries@.len(),
                self.wf(),
                forall|j: int| 0 <= j < lo ==> self.keys()[j] <= key,
                forall|j: int| hi <= j < self.keys().len() ==> self.keys()[j] > key,
            decreases hi - lo,
        {
            let mid: usize = lo + (hi - lo) / 2;
            assert(self.keys()[mid as int] == self.entries@[mid as int].key);
            if self.entries[mid].key <= key {
                lo = mid + 1;
            } else {
                hi = mid;
            }
        }
        lo
    }

    /// The position of `key`, if the table has it.
    pub fn position(&self, key: i32) -> (found: Option<usize>)
        ensures
            match found {
                Some(i) => i < self.keys().len() && self.keys()[i as int] == key,
                None => !self@.contains_key(key as int),
            },
    {
        proof {
            use_type_invariant(self);
            self.lemma_positions();
        }
        let i: usize = self.lower_bound(key);
        if i < self.entries.len() && self.entries[i].key == key {
            Some(i)
        } else {
            proof {
                if self@.contains_key(key as int) {
                    let j = choose|j: int| 0 <= j < self.keys().len() && self.keys()[j] == key;
                    assert(j >= i);
                    assert(self.keys()[i as int] <= self.keys()[j]);
                }
            }
            None
        }
    }

    /// Whether the table has a row at `key`.
    pub fn contains(&self, key: i32) -> (found: bool)
        ensures
            found == self@.contains_key(key as int),
    {
        proof {
            use_type_invariant(self);
            self.lemma_positions();
        }
        self.position(key).is_some()
    }

    /// The value stored at `key`.
    pub fn get(&self, key: i32) -> (found: Option<&V>)
        ensures
            match found {
                Some(val) => self@.contains_key(key as int) && val@ == self@[key as int],
                None => !self@.contains_key(key as int),
            },
    {
        proof {
            use_type_invariant(self);
            self.lemma_positions();
        }
        match self.position(key) {
            Some(i) => Some(&self.entries[i].val),
            None => None,
        }
    }

    /// The greatest level present.
    pub fn last_key(&self) -> (top: Option<i32>)
        ensures
            match top {
                Some(k) => top_of(self@) == Some(k as int) && self.keys().len() > 0
                    && self.keys().last() == k,
                None => top_of(self@) is None && self@ == Map::<int, V::V>::empty(),
            },
    {
        proof {
            use_type_invariant(self);
            self.lemma_positions();
        }
        let n: usize = self.entries.len();
        if n == 0 {
            proof {
                assert(self@ =~= Map::<int, V::V>::empty());
                lemma_empty_has_no_bounds(self@);
            }
            None
        } else {
            let k: i32 = self.entries[n - 1].key;
            proof {
                assert(self.keys()[n - 1] == k);
                assert forall|j: int| self@.contains_key(j) implies j <= k by {
                    let a = choose|a: int| 0 <= a < self.keys().len() && self.keys()[a] == j;
                    assert(a <= n - 1);
                }
                lemma_top_unique(self@, k as int);
            }
            Some(k)
        }
    }

    /// The least level present.
    pub fn first_key(&self) -> (base: Option<i32>)
        ensures
            match base {
                Some(k) => base_of(self@) == Some(k as int) && self.keys().len() > 0
                    && self.keys().first() == k,
                None => base_of(self@) is None && self@ == Map::<int, V::V>::empty(),
            },
    {
        proof {
            use_type_invariant(self);
            self.lemma_positions();
        }
        let n: usize = self.entries.len();
        if n == 0 {
            proof {
                assert(self@ =~= Map::<int, V::V>::empty());
                lemma_empty_has_no_bounds(self@);
            }
            None
        } else {
            let k: i32 = self.entries[0].key;
            proof {
                assert(self.keys()[0] == k);
                assert forall|j: int| self@.contains_key(j) implies k <= j by {
                    let a = choose|a: int| 0 <= a < self.keys().len() && self.keys()[a] == j;
                    assert(0 <= a);
                }
                lemma_base_unique(self@, k as int);
            }
            Some(k)
        }
    }

    /// Adds a row at `key` unless the table has one there. Returns whether it was added.
    pub fn insert_new(&mut self, key: i32, val: V) -> (added: bool)
        ensures
            added == !old(self)@.contains_key(key as int),
            added ==> final(self)@ == old(self)@.insert(key as int, val@),
            !added ==> final(self)@ == old(self)@ && final(self).keys() == old(self).keys()
                && final(self).vals() == old(self).vals(),
    {
        proof {
            use_type_invariant(&*self);
            self.lemma_positions();
        }
        let i: usize = self.lower_bound(key);
        if i < self.entries.len() && self.entries[i].key == key {
            proof {
                assert(self.keys()[i as int] == key);
            }
            return false;
        }
        proof {
            if self@.contains_key(key as int) {
                let j = choose|j: int| 0 <= j < self.keys().len() && self.keys()[j] == key;
                assert(j >= i);
                assert(self.keys()[i as int] <= self.keys()[j]);
            }
            lemma_ascending_distinct(self.keys());
            lemma_ascending_insert(self.keys(), i as int, key as int);
            lemma_insert_row(self.keys(), self.vals(), i as int, key as int, val@);
        }
        let mut entries: Vec<Entry<V>> = Vec::new();
        core::mem::swap(&mut self.entries, &mut entries);
        entries.insert(i, Entry { key, val });
        proof {
            let nk = Seq::new(entries@.len(), |j: int| entries@[j].key as int);
            let nv = Seq::new(entries@.len(), |j: int| entries@[j].val@);
            assert(nk =~= old(self).keys().insert(i as int, key as int));
            assert(nv =~= old(self).vals().insert(i as int, val@));
        }
        self.entries = entries;
        true
    }

    /// Stores `val` at `key`, in place of the row there if the table has one. Returns whether
    /// a row was replaced.
    pub fn insert_or_replace(&mut self, key: i32, val: V) -> (replaced: bool)
        ensures
            replaced == old(self)@.contains_key(key as int),
            final(self)@ == old(self)@.insert(key as int, val@),
    {
        proof {
            use_type_invariant(&*self);
            self.lemma_positions();
        }
        let i: usize = self.lower_bound(key);
        let replaced: bool = i < self.entries.len() && self.entries[i].key == key;
        proof {
            if !replaced && self@.contains_key(key as int) {
                let j = choose|j: int| 0 <= j < self.keys().len() && self.keys()[j] == key;
                assert(j >= i);
                assert(self.keys()[i as int] <= self.keys()[j]);
            }
            lemma_ascending_distinct(self.keys());
            if replaced {
                assert(self.keys()[i as int] == key);
                lemma_update_row(self.keys(), self.vals(), i as int, val@);
            } else {
                lemma_ascending_insert(self.keys(), i as int, key as int);
                lemma_insert_row(self.keys(), self.vals(), i as int, key as int, val@);
            }
        }
        let mut entries: Vec<Entry<V>> = Vec::new();
        core::mem::swap(&mut self.entries, &mut entries);
        if replaced {
            entries.set(i, Entry { key, val });
        } else {
            entries.insert(i, Entry { key, val });
        }
        proof {
            let nk = Seq::new(entries@.len(), |j: int| entries@[j].key as int);
            let nv = Seq::new(entries@.len(), |j: int| entries@[j].val@);
            if replaced {
                assert(nk =~= old(self).keys());
                assert(nv =~= old(self).vals().update(i as int, val@));
            } else {
                assert(nk =~= old(self).keys().insert(i as int, key as int));
                assert(nv =~= old(self).vals().insert(i as int, val@));
            }
        }
        self.entries = entries;
        replaced
    }

    /// Puts `val` in place of the value at position `i`.
    pub fn set_val_at(&mut self, i: usize, val: V)
        requires
            i < old(self).keys().len(),
        ensures
            final(self).keys() == old(self).keys(),
            final(self).vals() == old(self).vals().update(i as int, val@),
            final(self)@ == old(self)@.insert(old(self).keys()[i as int], val@),
    {
        proof {
            use_type_invariant(&*self);
            self.lemma_positions();
            lemma_ascending_distinct(self.keys());
            lemma_update_row(self.keys(), self.vals(), i as int, val@);
        }
        let key: i32 = self.entries[i].key;
        let mut entries: Vec<Entry<V>> = Vec::new();
        core::mem::swap(&mut self.entries, &mut entries);
        entries.set(i, Entry { key, val });
        proof {
            let nk = Seq::new(entries@.len(), |j: int| entries@[j].key as int);
            let nv = Seq::new(entries@.len(), |j: int| entries@[j].val@);
            assert(nk =~= old(self).keys());
            assert(nv =~= old(self).vals().update(i as int, val@));
        }
        self.entries = entries;
    }

    /// Removes the row at `key`. Returns whether there was one.
    pub fn remove(&mut self, key: i32) -> (removed: bool)
        ensures
            removed == old(self)@.contains_key(key as int),
            final(self)@ == old(self)@.remove(key as int),
    {
        proof {
            use_type_invariant(&*self);
            self.lemma_positions();
        }
        match self.position(key) {
            Some(i) => {
                proof {
                    lemma_ascending_distinct(self.keys());
                    lemma_remove_row(self.keys(), self.vals(), i as int);
                    assert(ascending(self.keys().remove(i as int)));
                }
                let mut entries: Vec<Entry<V>> = Vec::new();
                core::mem::swap(&mut self.entries, &mut entries);
                let _ = entries.remove(i);
                proof {
                    let nk = Seq::new(entries@.len(), |j: int| entries@[j].key as int);
                    let nv = Seq::new(entries@.len(), |j: int| entries@[j].val@);
                    assert(nk =~= old(self).keys().remove(i as int));
                    assert(nv =~= old(self).vals().remove(i as int));
                }
                self.entries = entries;
                true
            },
            None => {
                assert(self@.remove(key as int) =~= self@);
                false
            },
        }
    }

    /// Removes the rows at the levels of `doomed`.
    pub fn remove_all(&mut self, doomed: &Vec<i32>)
        ensures
            final(self)@ == old(self)@.remove_keys(level_set(doomed@)),
    {
        let mut j: usize = 0;
        assert(self@.remove_keys(level_set(doomed@.take(0))) =~= self@);
        while j < doomed.len()
            invariant
                j <= doomed@.len(),
                self@ == old(self)@.remove_keys(level_set(doomed@.take(j as int))),
            decreases doomed.len() - j,
        {
            let _ = self.remove(doomed[j]);
            proof {
                let head = doomed@.take(j as int);
                let more = doomed@.take(j + 1);
                let before = level_set(head);
                let after = level_set(more);
                assert forall|k: int| after.contains(k) <==> before.contains(k) || k
                    == doomed@[j as int] by {
                    if after.contains(k) {
                        let a = choose|a: int| 0 <= a < more.len() && more[a] == k;
                        if a < j {
                            assert(head[a] == k);
                        }
                    }
                    if before.contains(k) {
                        let a = choose|a: int| 0 <= a < head.len() && head[a] == k;
                        assert(more[a] == k);
                    }
                    if k == doomed@[j as int] {
                        assert(more[j as int] == k);
                    }
                }
                assert(self@ =~= old(self)@.remove_keys(after));
            }
            j += 1;
        }
        assert(doomed@.take(j as int) =~= doomed@);
    }

    /// Removes the rows strictly above `level`. Returns how many they were.
    pub fn clear_after(&mut self, level: i32) -> (removed: usize)
        ensures
            final(self)@ == without_above(old(self)@, level as int),
            removed == levels_above(old(self)@, level as int).len(),
    {
        proof {
            use_type_invariant(&*self);
            self.lemma_positions();
        }
        let i: usize = self.upper_bound(level);
        let removed: usize = self.entries.len() - i;
        proof {
            lemma_front_rows(self.keys(), self.vals(), i as int, level as int);
        }
        let mut entries: Vec<Entry<V>> = Vec::new();
        core::mem::swap(&mut self.entries, &mut entries);
        entries.truncate(i);
        proof {
            let nk = Seq::new(entries@.len(), |j: int| entries@[j].key as int);
            let nv = Seq::new(entries@.len(), |j: int| entries@[j].val@);
            assert(nk =~= old(self).keys().subrange(0, i as int));
            assert(nv =~= old(self).vals().subrange(0, i as int));
        }
        self.entries = entries;
        removed
    }

    /// Removes the rows strictly below `level`. Returns how many they were.
    pub fn clear_before(&mut self, level: i32) -> (removed: usize)
        ensures
            final(self)@ == without_below(old(self)@, level as int),
            removed == levels_below(old(self)@, level as int).len(),
    {
        proof {
            use_type_invariant(&*self);
            self.lemma_positions();
        }
        let i: usize = self.lower_bound(level);
        proof {
            lemma_back_rows(self.keys(), self.vals(), i as int, level as int);
        }
        let mut entries: Vec<Entry<V>> = Vec::new();
        core::mem::swap(&mut self.entries, &mut entries);
        let rest: Vec<Entry<V>> = entries.split_off(i);
        proof {
            let nk = Seq::new(rest@.len(), |j: int| rest@[j].key as int);
            let nv = Seq::new(rest@.len(), |j: int| rest@[j].val@);
            assert(nk =~= old(self).keys().subrange(i as int, old(self).keys().len() as int));
            assert(nv =~= old(self).vals().subrange(i as int, old(self).vals().len() as int));
        }
        self.entries = rest;
        i
    }

    /// Removes every row. Returns how many they were.
    pub fn clear(&mut self) -> (removed: usize)
        ensures
            final(self)@ == Map::<int, V::V>::empty(),
            removed == old(self)@.dom().len(),
    {
        proof {
            use_type_invariant(&*self);
            self.lemma_positions();
        }
        let removed: usize = self.entries.len();
        let entries: Vec<Entry<V>> = Vec::new();
        proof {
            let nk = Seq::new(entries@.len(), |j: int| entries@[j].key as int);
            let nv = Seq::new(entries@.len(), |j: int| entries@[j].val@);
            assert(nk =~= Seq::<int>::empty());
            assert(rows_map(nk, nv) =~= Map::<int, V::V>::empty());
        }
        self.entries = entries;
        removed
    }
}

} // verus!
