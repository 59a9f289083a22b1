use vstd::prelude::*;

verus! {

/// The table that holds `vals[i]` under `keys[i]`.
pub open spec fn rows_map<K, W>(keys: Seq<K>, vals: Seq<W>) -> Map<K, W> {
    Map::new(|k: K| keys.contains(k), |k: K| vals[keys.index_of(k)])
}

/// With distinct keys, each position is found again under its key, and there are as many
/// keys in the table as positions.
pub proof fn lemma_rows_map<K, W>(keys: Seq<K>, vals: Seq<W>)
    requires
        keys.no_duplicates(),
        keys.len() == vals.len(),
    ensures
        rows_map(keys, vals).dom() =~= keys.to_set(),
        rows_map(keys, vals).dom().finite(),
        rows_map(keys, vals).dom().len() == keys.len(),
        forall|i: int|
            0 <= i < keys.len() ==> rows_map(keys, vals).contains_key(#[trigger] keys[i])
                && rows_map(keys, vals)[keys[i]] == vals[i],
{
    keys.unique_seq_to_set();
    assert forall|i: int| 0 <= i < keys.len() implies rows_map(keys, vals).contains_key(
        #[trigger] keys[i],
    ) && rows_map(keys, vals)[keys[i]] == vals[i] by {
        let j = keys.index_of(keys[i]);
        assert(0 <= j < keys.len() && keys[j] == keys[i]);
        assert(j == i);
    }
}

/// Putting in a key that was not there keeps the keys distinct and adds one row to the table.
pub proof fn lemma_insert_row<K, W>(keys: Seq<K>, vals: Seq<W>, i: int, key: K, v: W)
    requires
        keys.no_duplicates(),
        keys.len() == vals.len(),
        0 <= i <= keys.len(),
        !keys.contains(key),
    ensures
        keys.insert(i, key).no_duplicates(),
        rows_map(keys.insert(i, key), vals.insert(i, v)) =~= rows_map(keys, vals).insert(key, v),
{
    let nk = keys.insert(i, key);
    let nv = vals.insert(i, v);
    assert forall|a: int, b: int| 0 <= a < nk.len() && 0 <= b < nk.len() && a != b implies nk[a]
        != nk[b] by {
        let oa = if a < i { a } else { a - 1 };
        let ob = if b < i { b } else { b - 1 };
        if a != i {
            assert(nk[a] == keys[oa]);
        }
        if b != i {
            assert(nk[b] == keys[ob]);
        }
    }
    lemma_rows_map(keys, vals);
    lemma_rows_map(nk, nv);
    let old_map = rows_map(keys, vals);
    let new_map = rows_map(nk, nv);
    assert forall|k: K| new_map.contains_key(k) <==> old_map.insert(key, v).contains_key(k) by {
        if new_map.contains_key(k) {
            let a = choose|a: int| 0 <= a < nk.len() && nk[a] == k;
            if a < i {
                assert(keys[a] == k);
            } else if a > i {
                assert(keys[a - 1] == k);
            }
        }
        if old_map.contains_key(k) {
            let j = choose|j: int| 0 <= j < keys.len() && keys[j] == k;
            if j < i {
                assert(nk[j] == k);
            } else {
                assert(nk[j + 1] == k);
            }
        }
        if k == key {
            assert(nk[i] == k);
        }
    }
    assert forall|k: K| new_map.contains_key(k) implies new_map[k] == old_map.insert(key, v)[k] by {
        let a = choose|a: int| 0 <= a < nk.len() && nk[a] == k;
        assert(new_map[nk[a]] == nv[a]);
        if a < i {
            assert(old_map[keys[a]] == vals[a]);
        } else if a > i {
            assert(keys[a - 1] == k);
            assert(old_map[keys[a - 1]] == vals[a - 1]);
        }
    }
}

/// Replacing the value at one position replaces the row under that position's key.
pub proof fn lemma_update_row<K, W>(keys: Seq<K>, vals: Seq<W>, i: int, v: W)
    requires
        keys.no_duplicates(),
        keys.len() == vals.len(),
        0 <= i < keys.len(),
    ensures
        rows_map(keys, vals.update(i, v)) =~= rows_map(keys, vals).insert(keys[i], v),
{
    let nv = vals.update(i, v);
    lemma_rows_map(keys, vals);
    lemma_rows_map(keys, nv);
    let old_map = rows_map(keys, vals);
    let new_map = rows_map(keys, nv);
    assert forall|k: K| new_map.contains_key(k) implies new_map[k] == old_map.insert(keys[i], v)[k] by {
        let a = choose|a: int| 0 <= a < keys.len() && keys[a] == k;
        assert(new_map[keys[a]] == nv[a]);
        assert(old_map[keys[a]] == vals[a]);
    }
}

/// Taking one position out keeps the keys distinct and removes that position's row.
pub proof fn lemma_remove_row<K, W>(keys: Seq<K>, vals: Seq<W>, i: int)
    requires
        keys.no_duplicates(),
        keys.len() == vals.len(),
        0 <= i < keys.len(),
    ensures
        keys.remove(i).no_duplicates(),
        rows_map(keys.remove(i), vals.remove(i)) =~= rows_map(keys, vals).remove(keys[i]),
{
    let nk = keys.remove(i);
    let nv = vals.remove(i);
    assert forall|a: int, b: int| 0 <= a < nk.len() && 0 <= b < nk.len() && a != b implies nk[a]
        != nk[b] by {
        let oa = if a < i { a } else { a + 1 };
        let ob = if b < i { b } else { b + 1 };
        assert(nk[a] == keys[oa] && nk[b] == keys[ob]);
    }
    lemma_rows_map(keys, vals);
    lemma_rows_map(nk, nv);
    let old_map = rows_map(keys, vals);
    let new_map = rows_map(nk, nv);
    assert forall|k: K| new_map.contains_key(k) <==> old_map.remove(keys[i]).contains_key(k) by {
        if new_map.contains_key(k) {
            let a = choose|a: int| 0 <= a < nk.len() && nk[a] == k;
            if a < i {
                assert(keys[a] == k);
            } else {
                assert(keys[a + 1] == k);
            }
        }
        if old_map.contains_key(k) && k != keys[i] {
            let j = choose|j: int| 0 <= j < keys.len() && keys[j] == k;
            if j < i {
                assert(nk[j] == k);
            } else {
                assert(nk[j - 1] == k);
            }
        }
    }
    assert forall|k: K| new_map.contains_key(k) implies new_map[k] == old_map.remove(keys[i])[k] by {
        let a = choose|a: int| 0 <= a < nk.len() && nk[a] == k;
        assert(new_map[nk[a]] == nv[a]);
        if a < i {
            assert(old_map[keys[a]] == vals[a]);
        } else {
            assert(keys[a + 1] == k);
            assert(old_map[keys[a + 1]] == vals[a + 1]);
        }
    }
}

/// The keys of `m` whose row passes `test`.
pub open spec fn keys_where<K, W>(m: Map<K, W>, test: spec_fn(W) -> bool) -> Set<K> {
    m.dom().filter(|k: K| test(m[k]))
}

/// One more item is tested after the items before it.
pub proof fn lemma_filter_step<A>(s: Seq<A>, test: spec_fn(A) -> bool, i: int)
    requires
        0 <= i < s.len(),
    ensures
        s.take(i + 1).filter(test) == if test(s[i]) {
            s.take(i).filter(test).push(s[i])
        } else {
            s.take(i).filter(test)
        },
{
    reveal(Seq::filter);
    assert(s.take(i + 1).drop_last() =~= s.take(i));
}

/// Of no items none passes a test.
pub proof fn lemma_filter_none<A>(s: Seq<A>, test: spec_fn(A) -> bool)
    ensures
        s.take(0).filter(test) == Seq::<A>::empty(),
        s.take(s.len() as int) == s,
{
    reveal(Seq::filter);
    assert(s.take(0) =~= Seq::<A>::empty());
    assert(s.take(s.len() as int) =~= s);
}

/// With distinct keys, as many keys have a row that passes a test as there are positions whose
/// value passes it.
pub proof fn lemma_count_rows<K, W>(keys: Seq<K>, vals: Seq<W>, test: spec_fn(W) -> bool)
    requires
        keys.no_duplicates(),
        keys.len() == vals.len(),
    ensures
        keys_where(rows_map(keys, vals), test).finite(),
        keys_where(rows_map(keys, vals), test).len() == vals.filter(test).len(),
    decreases keys.len(),
{
    reveal(Seq::filter);
    let m = rows_map(keys, vals);
    lemma_rows_map(keys, vals);
    if keys.len() == 0 {
        assert(keys_where(m, test) =~= Set::<K>::empty());
    } else {
        let last = keys.len() - 1;
        let front_keys = keys.drop_last();
        let front_vals = vals.drop_last();
        let front = rows_map(front_keys, front_vals);
        lemma_remove_row(keys, vals, last);
        assert(keys.remove(last) =~= front_keys);
        assert(vals.remove(last) =~= front_vals);
        lemma_count_rows(front_keys, front_vals, test);
        assert(m[keys[last]] == vals[last]);
        let fewer = keys_where(front, test);
        if test(vals[last]) {
            assert(keys_where(m, test) =~= fewer.insert(keys[last]));
        } else {
            assert(keys_where(m, test) =~= fewer);
        }
    }
}

/// What passes a test was there before, and passes the test.
pub proof fn lemma_filter_members<A>(s: Seq<A>, test: spec_fn(A) -> bool)
    ensures
        forall|a: int|
            0 <= a < s.filter(test).len() ==> s.contains(#[trigger] s.filter(test)[a]) && test(
                s.filter(test)[a],
            ),
    decreases s.len(),
{
    reveal(Seq::filter);
    if s.len() > 0 {
        lemma_filter_members(s.drop_last(), test);
        let sub = s.drop_last().filter(test);
        assert forall|a: int| 0 <= a < s.filter(test).len() implies s.contains(
            #[trigger] s.filter(test)[a],
        ) && test(s.filter(test)[a]) by {
            if a < sub.len() {
                assert(s.drop_last().contains(sub[a]));
                let j = choose|j: int| 0 <= j < s.drop_last().len() && s.drop_last()[j] == sub[a];
                assert(s[j] == sub[a]);
            } else {
                assert(s[s.len() - 1] == s.filter(test)[a]);
            }
        }
    }
}

/// Where every item passes a test, the test lets all of them through.
pub proof fn lemma_filter_all<A>(s: Seq<A>, test: spec_fn(A) -> bool)
    requires
        forall|i: int| 0 <= i < s.len() ==> test(#[trigger] s[i]),
    ensures
        s.filter(test) == s,
    decreases s.len(),
{
    reveal(Seq::filter);
    if s.len() > 0 {
        let front = s.drop_last();
        assert forall|i: int| 0 <= i < front.len() implies test(#[trigger] front[i]) by {
            assert(front[i] == s[i]);
        }
        lemma_filter_all(front, test);
        assert(test(s[s.len() - 1]));
        assert(front.push(s.last()) =~= s);
    }
}

/// Where no item passes a test, the test lets none of them through.
pub proof fn lemma_filter_nothing<A>(s: Seq<A>, test: spec_fn(A) -> bool)
    requires
        forall|i: int| 0 <= i < s.len() ==> !test(#[trigger] s[i]),
    ensures
        s.filter(test) == Seq::<A>::empty(),
    decreases s.len(),
{
    reveal(Seq::filter);
    if s.len() > 0 {
        let front = s.drop_last();
        assert forall|i: int| 0 <= i < front.len() implies !test(#[trigger] front[i]) by {
            assert(front[i] == s[i]);
        }
        lemma_filter_nothing(front, test);
        assert(!test(s[s.len() - 1]));
    }
}

} // verus!
