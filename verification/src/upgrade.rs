use vstd::prelude::*;
use vstd::seq_lib::to_multiset_insert;
use crate::level_map::LevelMap;
use crate::model::{lemma_empty_has_no_bounds, lemma_top_unique, top_of};
use crate::rows::{keys_where, lemma_filter_none, lemma_filter_step};

verus! {

/// What the store holds of one scheduled upgrade: what is to be activated, and the level at
/// which it was applied, if it has been.
pub struct UpgradeRow<W> {
    pub payload: W,
    pub applied_before: Option<int>,
}

/// A scheduled upgrade as the table keeps it, under the level before which it was injected.
pub struct StoredUpgrade<P> {
    pub payload: P,
    pub applied_before: Option<i32>,
}

/// The level of an application, if there is one.
pub open spec fn applied_view(applied_before: Option<i32>) -> Option<int> {
    match applied_before {
        Some(level) => Some(level as int),
        None => None,
    }
}

impl<P: View> View for StoredUpgrade<P> {
    type V = UpgradeRow<P::V>;

    open spec fn view(&self) -> UpgradeRow<P::V> {
        UpgradeRow { payload: self.payload@, applied_before: applied_view(self.applied_before) }
    }
}

/// What an upgrade activates. The table copies it when it rewrites a row.
pub trait Payload: View + Sized {
    /// A copy of this payload.
    fn duplicate(&self) -> (copy: Self)
        ensures
            copy@ == self@,
    ;
}

/// The test "has not been applied".
pub open spec fn is_unapplied<W>() -> spec_fn(UpgradeRow<W>) -> bool {
    |row: UpgradeRow<W>| row.applied_before is None
}

/// The test "was applied strictly above `level`".
pub open spec fn is_applied_above<W>(level: int) -> spec_fn(UpgradeRow<W>) -> bool {
    |row: UpgradeRow<W>|
        match row.applied_before {
            Some(applied) => applied > level,
            None => false,
        }
}

/// The test "was applied at `level`".
pub open spec fn is_applied_at<W>(level: int) -> spec_fn(UpgradeRow<W>) -> bool {
    |row: UpgradeRow<W>| row.applied_before == Some(level)
}

/// The row after an application at `level` was recorded: an unapplied row is applied at
/// `level`, an applied one stays as it is.
pub open spec fn stamped<W>(level: int) -> spec_fn(UpgradeRow<W>) -> UpgradeRow<W> {
    |row: UpgradeRow<W>|
        if row.applied_before is None {
            UpgradeRow { payload: row.payload, applied_before: Some(level) }
        } else {
            row
        }
}

/// The row after the chain went back to `level`: a row applied strictly above `level` is
/// unapplied again, any other stays as it is.
pub open spec fn unstamped<W>(level: int) -> spec_fn(UpgradeRow<W>) -> UpgradeRow<W> {
    |row: UpgradeRow<W>|
        if is_applied_above(level)(row) {
            UpgradeRow { payload: row.payload, applied_before: None }
        } else {
            row
        }
}

/// The ledger after an application at `level` was recorded.
pub open spec fn with_apply_recorded<W>(m: Map<int, UpgradeRow<W>>, level: int) -> Map<
    int,
    UpgradeRow<W>,
> {
    m.map_values(stamped(level))
}

/// The ledger after the applications strictly above `level` were taken back.
pub open spec fn with_apply_nullified<W>(m: Map<int, UpgradeRow<W>>, level: int) -> Map<
    int,
    UpgradeRow<W>,
> {
    m.map_values(unstamped(level))
}

/// The rows of the ledger that have not been applied.
pub open spec fn unapplied_rows<W>(m: Map<int, UpgradeRow<W>>) -> Map<int, UpgradeRow<W>> {
    m.restrict(keys_where(m, is_unapplied()))
}

/// No level comes before a greater one.
pub open spec fn descending(levels: Seq<i32>) -> bool {
    forall|i: int, j: int| 0 <= i < j < levels.len() ==> levels[i] >= levels[j]
}

/// `levels` lists the levels at which the rows of `m` were applied, once for each such row,
/// the greatest first.
pub open spec fn lists_activations<W>(m: Map<int, UpgradeRow<W>>, levels: Seq<i32>) -> bool {
    &&& descending(levels)
    &&& forall|v: i32|
        levels.to_multiset().count(v) == (#[trigger] keys_where(m, is_applied_at(v as int))).len()
}

/// Stores an upgrade under `injected_before` as not applied, in place of the row there if
/// there is one.
pub fn schedule<P: Payload>(table: &mut LevelMap<StoredUpgrade<P>>, injected_before: i32, payload: P)
    ensures
        final(table)@ == old(table)@.insert(
            injected_before as int,
            UpgradeRow { payload: payload@, applied_before: None },
        ),
{
    let _ = table.insert_or_replace(injected_before, StoredUpgrade { payload, applied_before: None });
}

/// Stores an upgrade under `injected_before` in the state given, applied at `applied_before`
/// or not applied, in place of the row there if there is one.
pub fn restore<P: Payload>(
    table: &mut LevelMap<StoredUpgrade<P>>,
    injected_before: i32,
    payload: P,
    applied_before: Option<i32>,
)
    ensures
        final(table)@ == old(table)@.insert(
            injected_before as int,
            UpgradeRow { payload: payload@, applied_before: applied_view(applied_before) },
        ),
{
    let _ = table.insert_or_replace(injected_before, StoredUpgrade { payload, applied_before });
}

/// Marks every row that has not been applied as applied at `level`. Returns how many rows
/// it marked.
pub fn record_apply<P: Payload>(table: &mut LevelMap<StoredUpgrade<P>>, level: i32) -> (updated:
    usize)
    ensures
        final(table)@ == with_apply_recorded(old(table)@, level as int),
        updated == keys_where(old(table)@, is_unapplied()).len(),
{
    proof {
        use_type_invariant(&*table);
        table.lemma_positions();
        table.lemma_count_where(is_unapplied());
    }
    let ghost keys = table.keys();
    let ghost before = table.vals();
    let ghost test = is_unapplied::<P::V>();
    let n: usize = table.len();
    let mut updated: usize = 0;
    let mut i: usize = 0;
    proof {
        lemma_filter_none(before, test);
    }
    while i < n
        invariant
            i <= n,
            n == keys.len(),
            before.len() == n,
            table.keys() == keys,
            table.vals().len() == n,
            test == is_unapplied::<P::V>(),
            forall|j: int| 0 <= j < i ==> table.vals()[j] == stamped(level as int)(before[j]),
            forall|j: int| i <= j < n ==> table.vals()[j] == before[j],
            updated == before.take(i as int).filter(test).len(),
            updated <= i,
        decreases n - i,
    {
        proof {
            lemma_filter_step(before, test, i as int);
        }
        let stored = table.val_at(i);
        if stored.applied_before.is_none() {
            let payload: P = stored.payload.duplicate();
            table.set_val_at(i, StoredUpgrade { payload, applied_before: Some(level) });
            updated += 1;
        }
        i += 1;
    }
    proof {
        lemma_filter_none(before, test);
        use_type_invariant(&*table);
        table.lemma_positions();
        let want = with_apply_recorded(old(table)@, level as int);
        assert(table@.dom() =~= want.dom());
        assert forall|k: int| table@.contains_key(k) implies table@[k] == want[k] by {
            let j = choose|j: int| 0 <= j < keys.len() && keys[j] == k;
            assert(table@[keys[j]] == table.vals()[j]);
            assert(old(table)@[keys[j]] == before[j]);
        }
        assert(table@ =~= want);
    }
    updated
}

/// Marks every row that was applied strictly above `level` as not applied. Returns how many
/// rows it marked.
pub fn nullify_after<P: Payload>(table: &mut LevelMap<StoredUpgrade<P>>, level: i32) -> (updated:
    usize)
    ensures
        final(table)@ == with_apply_nullified(old(table)@, level as int),
        updated == keys_where(old(table)@, is_applied_above(level as int)).len(),
{
    proof {
        use_type_invariant(&*table);
        table.lemma_positions();
        table.lemma_count_where(is_applied_above(level as int));
    }
    let ghost keys = table.keys();
    let ghost before = table.vals();
    let ghost test = is_applied_above::<P::V>(level as int);
    let n: usize = table.len();
    let mut updated: usize = 0;
    let mut i: usize = 0;
    proof {
        lemma_filter_none(before, test);
    }
    while i < n
        invariant
            i <= n,
            n == keys.len(),
            before.len() == n,
            table.keys() == keys,
            table.vals().len() == n,
            test == is_applied_above::<P::V>(level as int),
            forall|j: int| 0 <= j < i ==> table.vals()[j] == unstamped(level as int)(before[j]),
            forall|j: int| i <= j < n ==> table.vals()[j] == before[j],
            updated == before.take(i as int).filter(test).len(),
            updated <= i,
        decreases n - i,
    {
        proof {
            lemma_filter_step(before, test, i as int);
        }
        let stored = table.val_at(i);
        let above: bool = match stored.applied_before {
            Some(applied) => applied > level,
            None => false,
        };
        if above {
            let payload: P = stored.payload.duplicate();
            table.set_val_at(i, StoredUpgrade { payload, applied_before: None });
            updated += 1;
        }
        i += 1;
    }
    proof {
        lemma_filter_none(before, test);
        use_type_invariant(&*table);
        table.lemma_positions();
        let want = with_apply_nullified(old(table)@, level as int);
        assert(table@.dom() =~= want.dom());
        assert forall|k: int| table@.contains_key(k) implies table@[k] == want[k] by {
            let j = choose|j: int| 0 <= j < keys.len() && keys[j] == k;
            assert(table@[keys[j]] == table.vals()[j]);
            assert(old(table)@[keys[j]] == before[j]);
        }
        assert(table@ =~= want);
    }
    updated
}

/// The levels at which the rows were applied, once for each applied row, the greatest first.
pub fn activation_levels<P: Payload>(table: &LevelMap<StoredUpgrade<P>>) -> (levels: Vec<i32>)
    ensures
        lists_activations(table@, levels@),
{
    proof {
        use_type_invariant(table);
        table.lemma_positions();
    }
    let ghost rows = table.vals();
    let n: usize = table.len();
    let mut levels: Vec<i32> = Vec::new();
    let mut i: usize = 0;
    proof {
        assert forall|v: i32|
            levels@.to_multiset().count(v) == (#[trigger] rows.take(0).filter(
                is_applied_at(v as int),
            )).len() by {
            lemma_filter_none(rows, is_applied_at(v as int));
            levels@.to_multiset_ensures();
            assert(!levels@.contains(v));
        }
    }
    while i < n
        invariant
            i <= n,
            n == rows.len(),
            rows == table.vals(),
            n == table.keys().len(),
            descending(levels@),
            forall|v: i32|
                levels@.to_multiset().count(v) == (#[trigger] rows.take(i as int).filter(
                    is_applied_at(v as int),
                )).len(),
        decreases n - i,
    {
        let ghost prev = levels@;
        let stored = table.val_at(i);
        match stored.applied_before {
            Some(applied) => {
                let mut at: usize = 0;
                while at < levels.len() && levels[at] >= applied
                    invariant
                        at <= levels@.len(),
                        forall|a: int| 0 <= a < at ==> levels@[a] >= applied,
                    decreases levels@.len() - at,
                {
                    at += 1;
                }
                levels.insert(at, applied);
                proof {
                    to_multiset_insert(prev, at as int, applied);
                    assert forall|a: int, b: int| 0 <= a < b < levels@.len() implies levels@[a]
                        >= levels@[b] by {
                        if a < at && b > at {
                            assert(levels@[a] == prev[a] && levels@[b] == prev[b - 1]);
                        } else if a == at {
                            assert(levels@[b] == prev[b - 1]);
                            assert(prev[at as int] < applied);
                            assert(at as int <= b - 1);
                        }
                    }
                }
            },
            None => {},
        }
        proof {
            assert forall|v: i32|
                levels@.to_multiset().count(v) == (#[trigger] rows.take(i + 1).filter(
                    is_applied_at(v as int),
                )).len() by {
                lemma_filter_step(rows, is_applied_at(v as int), i as int);
                let seen = rows.take(i as int).filter(is_applied_at(v as int));
                assert(prev.to_multiset().count(v) == seen.len());
            }
        }
        i += 1;
    }
    proof {
        assert forall|v: i32|
            levels@.to_multiset().count(v) == (#[trigger] keys_where(
                table@,
                is_applied_at(v as int),
            )).len() by {
            lemma_filter_none(rows, is_applied_at(v as int));
            table.lemma_count_where(is_applied_at(v as int));
            let seen = rows.take(n as int).filter(is_applied_at(v as int));
            assert(levels@.to_multiset().count(v) == seen.len());
        }
    }
    levels
}

/// The position of the row injected last among those that have not been applied.
pub fn latest_unapplied<P: Payload>(table: &LevelMap<StoredUpgrade<P>>) -> (found: Option<usize>)
    ensures
        match found {
            Some(i) => {
                &&& i < table.keys().len()
                &&& top_of(unapplied_rows(table@)) == Some(table.keys()[i as int])
                &&& table@.contains_key(table.keys()[i as int])
                &&& table@[table.keys()[i as int]] == table.vals()[i as int]
            },
            None => top_of(unapplied_rows(table@)) is None && keys_where(table@, is_unapplied())
                == Set::<int>::empty(),
        },
{
    proof {
        use_type_invariant(table);
        table.lemma_positions();
    }
    let n: usize = table.len();
    let mut i: usize = n;
    while i > 0
        invariant
            i <= n,
            n == table.keys().len(),
            n == table.vals().len(),
            forall|j: int| i <= j < n ==> (#[trigger] table.vals()[j]).applied_before is Some,
        decreases i,
    {
        if table.val_at(i - 1).applied_before.is_none() {
            proof {
                use_type_invariant(table);
                table.lemma_positions();
                let keys = table.keys();
                let k = keys[i - 1];
                let rest = unapplied_rows(table@);
                assert(table@[keys[i - 1]] == table.vals()[i - 1]);
                assert(rest.contains_key(k));
                assert forall|j: int| rest.contains_key(j) implies j <= k by {
                    let a = choose|a: int| 0 <= a < keys.len() && keys[a] == j;
                    assert(table@[keys[a]] == table.vals()[a]);
                    if a > i - 1 {
                        assert(table.vals()[a].applied_before is Some);
                    }
                }
                lemma_top_unique(rest, k);
            }
            return Some(i - 1);
        }
        i -= 1;
    }
    proof {
        use_type_invariant(table);
        table.lemma_positions();
        let keys = table.keys();
        assert forall|k: int| !keys_where(table@, is_unapplied()).contains(k) by {
            if table@.contains_key(k) {
                let a = choose|a: int| 0 <= a < keys.len() && keys[a] == k;
                assert(table@[keys[a]] == table.vals()[a]);
                assert(table.vals()[a].applied_before is Some);
            }
        }
        assert(keys_where(table@, is_unapplied()) =~= Set::<int>::empty());
        lemma_empty_has_no_bounds(unapplied_rows(table@));
    }
    None
}

} // verus!
