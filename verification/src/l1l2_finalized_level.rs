use vstd::prelude::*;
use crate::error::StoreError;
use crate::level_map::{LevelMap, level_set};
use crate::model::{lemma_top_unique, lists_range, top_of};
use crate::rows::{keys_where, lemma_filter_none, lemma_filter_step};
use crate::store::{Store, StoreView};

verus! {

/// What the store holds of one finalized level of the first layer: the levels of the second
/// layer that it finalized, from `start_l2_level`, excluded, to `end_l2_level`, included.
pub struct SpanRow {
    pub start_l2_level: int,
    pub end_l2_level: int,
}

/// A span of second-layer levels as the table keeps it, under its first-layer level.
pub struct StoredSpan {
    pub start_l2_level: i32,
    pub end_l2_level: i32,
}

impl View for StoredSpan {
    type V = SpanRow;

    open spec fn view(&self) -> SpanRow {
        SpanRow {
            start_l2_level: self.start_l2_level as int,
            end_l2_level: self.end_l2_level as int,
        }
    }
}

/// A question asked of a span.
pub enum SpanTest {
    /// Does the span hold this level of the second layer?
    Covers(i32),
    /// Does the span lie within these two levels of the second layer?
    Within(i32, i32),
    /// Does the span end strictly above this level?
    EndsAbove(i32),
    /// Does the span start strictly below this level?
    StartsBelow(i32),
}

/// The test "holds the second-layer level `l2`".
pub open spec fn covers(l2: int) -> spec_fn(SpanRow) -> bool {
    |row: SpanRow| row.start_l2_level < l2 && l2 <= row.end_l2_level
}

/// The test "starts at `start` or above and ends at `end` or below".
pub open spec fn within(start: int, end: int) -> spec_fn(SpanRow) -> bool {
    |row: SpanRow| row.start_l2_level >= start && row.end_l2_level <= end
}

/// The test "ends strictly above `level`".
pub open spec fn ends_above(level: int) -> spec_fn(SpanRow) -> bool {
    |row: SpanRow| row.end_l2_level > level
}

/// The test "starts strictly below `level`".
pub open spec fn starts_below(level: int) -> spec_fn(SpanRow) -> bool {
    |row: SpanRow| row.start_l2_level < level
}

impl SpanTest {
    /// The test that this question stands for.
    pub open spec fn test(self) -> spec_fn(SpanRow) -> bool {
        match self {
            SpanTest::Covers(l2) => covers(l2 as int),
            SpanTest::Within(start, end) => within(start as int, end as int),
            SpanTest::EndsAbove(level) => ends_above(level as int),
            SpanTest::StartsBelow(level) => starts_below(level as int),
        }
    }

    /// Whether the answer is yes for `span`.
    pub fn passes(&self, span: &StoredSpan) -> (yes: bool)
        ensures
            yes == (self.test())(span@),
    {
        match self {
            SpanTest::Covers(l2) => span.start_l2_level < *l2 && *l2 <= span.end_l2_level,
            SpanTest::Within(start, end) => span.start_l2_level >= *start && span.end_l2_level
                <= *end,
            SpanTest::EndsAbove(level) => span.end_l2_level > *level,
            SpanTest::StartsBelow(level) => span.start_l2_level < *level,
        }
    }
}

/// `e` is the greatest end of a span of `m`.
pub open spec fn is_last_l2_level(m: Map<int, SpanRow>, e: int) -> bool {
    &&& exists|k: int| m.contains_key(k) && (#[trigger] m[k]).end_l2_level == e
    &&& forall|k: int| m.contains_key(k) ==> (#[trigger] m[k]).end_l2_level <= e
}

/// The first-layer levels of a list of spans, in their order.
pub open spec fn listed_levels(list: Seq<(i32, i32, i32)>) -> Seq<int> {
    Seq::new(list.len(), |i: int| list[i].0 as int)
}

/// Each item of the list is a first-layer level of `m` with its span, and the levels ascend.
pub open spec fn lists_spans(m: Map<int, SpanRow>, list: Seq<(i32, i32, i32)>) -> bool {
    &&& forall|i: int, j: int| 0 <= i < j < list.len() ==> list[i].0 < list[j].0
    &&& forall|i: int|
        0 <= i < list.len() ==> m.contains_key((#[trigger] list[i]).0 as int)
            && m[list[i].0 as int].start_l2_level == list[i].1 && m[list[i].0 as int].end_l2_level
            == list[i].2
}

/// The first-layer levels whose span passes `test`, in ascending order.
pub fn levels_passing(table: &LevelMap<StoredSpan>, test: SpanTest) -> (levels: Vec<i32>)
    ensures
        forall|a: int, b: int| 0 <= a < b < levels@.len() ==> levels@[a] < levels@[b],
        level_set(levels@) == keys_where(table@, test.test()),
        levels@.len() == keys_where(table@, test.test()).len(),
{
    proof {
        use_type_invariant(table);
        table.lemma_positions();
        table.lemma_count_where(test.test());
    }
    let ghost keys = table.keys();
    let ghost vals = table.vals();
    let ghost pass = test.test();
    let n: usize = table.len();
    let mut levels: Vec<i32> = Vec::new();
    let ghost mut origin: Seq<int> = Seq::empty();
    let mut i: usize = 0;
    proof {
        lemma_filter_none(vals, pass);
    }
    while i < n
        invariant
            i <= n,
            n == keys.len(),
            n == vals.len(),
            keys == table.keys(),
            vals == table.vals(),
            pass == test.test(),
            table.wf(),
            levels@.len() == vals.take(i as int).filter(pass).len(),
            forall|a: int, b: int| 0 <= a < b < levels@.len() ==> levels@[a] < levels@[b],
            origin.len() == levels@.len(),
            forall|a: int|
                0 <= a < levels@.len() ==> 0 <= #[trigger] origin[a] < i && keys[origin[a]]
                    == levels@[a] && pass(vals[origin[a]]),
            forall|p: int| 0 <= p < i && pass(vals[p]) ==> level_set(levels@).contains(#[trigger] keys[p]),
        decreases n - i,
    {
        proof {
            lemma_filter_step(vals, pass, i as int);
        }
        if test.passes(table.val_at(i)) {
            let ghost before = levels@;
            let level: i32 = table.key_at(i);
            levels.push(level);
            proof {
                origin = origin.push(i as int);
                assert forall|a: int, b: int| 0 <= a < b < levels@.len() implies levels@[a]
                    < levels@[b] by {
                    if b == levels@.len() - 1 {
                        assert(keys[origin[a]] < keys[i as int]);
                    }
                }
                assert forall|p: int| 0 <= p < i + 1 && pass(vals[p]) implies level_set(
                    levels@,
                ).contains(#[trigger] keys[p]) by {
                    if p < i {
                        assert(level_set(before).contains(keys[p]));
                        let a = choose|a: int| 0 <= a < before.len() && before[a] == keys[p];
                        assert(levels@[a] == keys[p]);
                    } else {
                        assert(levels@[levels@.len() - 1] == keys[p]);
                    }
                }
            }
        }
        i += 1;
    }
    proof {
        lemma_filter_none(vals, pass);
        assert forall|k: int| level_set(levels@).contains(k) <==> keys_where(
            table@,
            pass,
        ).contains(k) by {
            if level_set(levels@).contains(k) {
                let a = choose|a: int| 0 <= a < levels@.len() && levels@[a] == k;
                let p = origin[a];
                assert(table@[keys[p]] == vals[p]);
            }
            if keys_where(table@, pass).contains(k) {
                let p = choose|p: int| 0 <= p < keys.len() && keys[p] == k;
                assert(table@[keys[p]] == vals[p]);
                assert(level_set(levels@).contains(keys[p]));
            }
        }
        assert(level_set(levels@) =~= keys_where(table@, pass));
    }
    levels
}

/// The spans at the levels of `levels`, each with its level.
fn spans_at(table: &LevelMap<StoredSpan>, levels: &Vec<i32>) -> (list: Vec<(i32, i32, i32)>)
    requires
        forall|a: int| 0 <= a < levels@.len() ==> table@.contains_key(#[trigger] levels@[a] as int),
        forall|a: int, b: int| 0 <= a < b < levels@.len() ==> levels@[a] < levels@[b],
    ensures
        lists_spans(table@, list@),
        list@.len() == levels@.len(),
        forall|a: int| 0 <= a < list@.len() ==> (#[trigger] list@[a]).0 == levels@[a],
{
    let mut list: Vec<(i32, i32, i32)> = Vec::new();
    let mut a: usize = 0;
    while a < levels.len()
        invariant
            a <= levels@.len(),
            list@.len() == a,
            forall|c: int| 0 <= c < levels@.len() ==> table@.contains_key(#[trigger] levels@[c] as int),
            forall|c: int| 0 <= c < list@.len() ==> (#[trigger] list@[c]).0 == levels@[c],
            forall|c: int|
                0 <= c < list@.len() ==> table@[(#[trigger] list@[c]).0 as int].start_l2_level
                    == list@[c].1 && table@[list@[c].0 as int].end_l2_level == list@[c].2,
        decreases levels.len() - a,
    {
        let level: i32 = levels[a];
        assert(table@.contains_key(levels@[a as int] as int));
        if let Some(span) = table.get(level) {
            list.push((level, span.start_l2_level, span.end_l2_level));
        }
        a += 1;
    }
    list
}

/// A level of the first layer that is final, with the levels of the second layer that it
/// finalized: from `start_l2_level`, excluded, to `end_l2_level`, included.
#[derive(Debug)]
pub struct L1L2FinalizedLevel {
    pub l1_level: i32,
    pub start_l2_level: i32,
    pub end_l2_level: i32,
}

impl L1L2FinalizedLevel {
    /// The span that this row becomes in the table.
    pub open spec fn row(&self) -> SpanRow {
        SpanRow {
            start_l2_level: self.start_l2_level as int,
            end_l2_level: self.end_l2_level as int,
        }
    }

    /// Stores this span at its first-layer level, in place of the one there if the level has
    /// one.
    pub fn insert(self, connection: &mut Store) -> (r: Result<usize, StoreError>)
        ensures
            r == Ok::<usize, StoreError>(1),
            final(connection)@ == (StoreView {
                l1_l2_finalized_levels: old(connection)@.l1_l2_finalized_levels.insert(
                    self.l1_level as int,
                    self.row(),
                ),
                ..old(connection)@
            }),
    {
        let span = StoredSpan {
            start_l2_level: self.start_l2_level,
            end_l2_level: self.end_l2_level,
        };
        let _ = connection.l1_l2_finalized_levels.insert_or_replace(self.l1_level, span);
        Ok(1)
    }

    /// The span of the first-layer level `queried_l1_level`: its start, then its end.
    pub fn get(connection: &Store, queried_l1_level: i32) -> (r: Result<(i32, i32), StoreError>)
        ensures
            match r {
                Ok((start, end)) => {
                    let m = connection@.l1_l2_finalized_levels;
                    &&& m.contains_key(queried_l1_level as int)
                    &&& start == m[queried_l1_level as int].start_l2_level
                    &&& end == m[queried_l1_level as int].end_l2_level
                },
                Err(e) => e == StoreError::NotFound
                    && !connection@.l1_l2_finalized_levels.contains_key(queried_l1_level as int),
            },
    {
        match connection.l1_l2_finalized_levels.get(queried_l1_level) {
            Some(span) => Ok((span.start_l2_level, span.end_l2_level)),
            None => Err(StoreError::NotFound),
        }
    }

    /// The greatest second-layer level that is final: the greatest end of a span.
    pub fn last_l2_level(connection: &Store) -> (r: Result<i32, StoreError>)
        ensures
            match r {
                Ok(level) => is_last_l2_level(connection@.l1_l2_finalized_levels, level as int),
                Err(e) => e == StoreError::NotFound && connection@.l1_l2_finalized_levels
                    == Map::<int, SpanRow>::empty(),
            },
    {
        let table = &connection.l1_l2_finalized_levels;
        proof {
            use_type_invariant(table);
            table.lemma_positions();
        }
        let n: usize = table.len();
        if n == 0 {
            assert(table@ =~= Map::<int, SpanRow>::empty());
            return Err(StoreError::NotFound);
        }
        let mut best: i32 = table.val_at(0).end_l2_level;
        let mut i: usize = 1;
        while i < n
            invariant
                1 <= i <= n,
                n == table.keys().len(),
                n == table.vals().len(),
                exists|p: int| 0 <= p < i && (#[trigger] table.vals()[p]).end_l2_level == best,
                forall|p: int| 0 <= p < i ==> (#[trigger] table.vals()[p]).end_l2_level <= best,
            decreases n - i,
        {
            let end: i32 = table.val_at(i).end_l2_level;
            if end > best {
                best = end;
            }
            i += 1;
        }
        proof {
            use_type_invariant(table);
            table.lemma_positions();
            let m = connection@.l1_l2_finalized_levels;
            let p = choose|p: int| 0 <= p < n && (#[trigger] table.vals()[p]).end_l2_level == best;
            assert(m.contains_key(table.keys()[p]) && m[table.keys()[p]] == table.vals()[p]);
            assert forall|k: int| m.contains_key(k) implies (#[trigger] m[k]).end_l2_level
                <= best by {
                let q = choose|q: int| 0 <= q < table.keys().len() && table.keys()[q] == k;
                assert(m[table.keys()[q]] == table.vals()[q]);
            }
        }
        Ok(best)
    }

    /// The greatest first-layer level that is final, with its span.
    pub fn last(connection: &Store) -> (r: Result<(i32, i32, i32), StoreError>)
        ensures
            match r {
                Ok((l1_level, start, end)) => {
                    let m = connection@.l1_l2_finalized_levels;
                    &&& top_of(m) == Some(l1_level as int)
                    &&& start == m[l1_level as int].start_l2_level
                    &&& end == m[l1_level as int].end_l2_level
                },
                Err(e) => e == StoreError::NotFound && connection@.l1_l2_finalized_levels
                    == Map::<int, SpanRow>::empty(),
            },
    {
        let table = &connection.l1_l2_finalized_levels;
        proof {
            use_type_invariant(table);
            table.lemma_positions();
        }
        match table.last_key() {
            Some(level) => {
                let span = table.val_at(table.len() - 1);
                Ok((level, span.start_l2_level, span.end_l2_level))
            },
            None => Err(StoreError::NotFound),
        }
    }

    /// The greatest first-layer level whose span holds the second-layer level
    /// `queried_l2_level`.
    pub fn find_l1_level(connection: &Store, queried_l2_level: i32) -> (r: Result<i32, StoreError>)
        ensures
            match r {
                Ok(level) => {
                    let m = connection@.l1_l2_finalized_levels;
                    top_of(m.restrict(keys_where(m, covers(queried_l2_level as int)))) == Some(
                        level as int,
                    )
                },
                Err(e) => e == StoreError::NotFound && keys_where(
                    connection@.l1_l2_finalized_levels,
                    covers(queried_l2_level as int),
                ) == Set::<int>::empty(),
            },
    {
        let table = &connection.l1_l2_finalized_levels;
        let levels = levels_passing(table, SpanTest::Covers(queried_l2_level));
        let ghost m = connection@.l1_l2_finalized_levels;
        let ghost hits = m.restrict(keys_where(m, covers(queried_l2_level as int)));
        if levels.len() == 0 {
            proof {
                assert(keys_where(m, covers(queried_l2_level as int)) =~= Set::<int>::empty()) by {
                    assert forall|k: int| !level_set(levels@).contains(k) by {}
                }
            }
            Err(StoreError::NotFound)
        } else {
            let level: i32 = levels[levels.len() - 1];
            proof {
                assert(level_set(levels@).contains(level as int));
                assert forall|k: int| hits.contains_key(k) implies k <= level by {
                    assert(level_set(levels@).contains(k));
                    let a = choose|a: int| 0 <= a < levels@.len() && levels@[a] == k;
                    if a < levels@.len() - 1 {
                        assert(levels@[a] < levels@[levels@.len() - 1]);
                    }
                }
                lemma_top_unique(hits, level as int);
            }
            Ok(level)
        }
    }

    /// The final first-layer levels whose span starts at `start_l2` or above and ends at
    /// `end_l2` or below, in ascending order, each with its span.
    pub fn list_by_l2_levels(connection: &Store, start_l2: i32, end_l2: i32) -> (r: Result<
        Vec<(i32, i32, i32)>,
        StoreError,
    >)
        ensures
            r is Ok,
            lists_spans(connection@.l1_l2_finalized_levels, r->Ok_0@),
            listed_levels(r->Ok_0@).to_set() == keys_where(
                connection@.l1_l2_finalized_levels,
                within(start_l2 as int, end_l2 as int),
            ),
    {
        let table = &connection.l1_l2_finalized_levels;
        let levels = levels_passing(table, SpanTest::Within(start_l2, end_l2));
        proof {
            assert forall|a: int| 0 <= a < levels@.len() implies table@.contains_key(
                #[trigger] levels@[a] as int,
            ) by {
                assert(level_set(levels@).contains(levels@[a] as int));
            }
        }
        let list = spans_at(table, &levels);
        proof {
            let named = listed_levels(list@);
            assert forall|k: int| named.to_set().contains(k) <==> level_set(levels@).contains(
                k,
            ) by {
                if named.to_set().contains(k) {
                    let a = choose|a: int| 0 <= a < named.len() && named[a] == k;
                    assert(list@[a].0 == levels@[a]);
                }
                if level_set(levels@).contains(k) {
                    let a = choose|a: int| 0 <= a < levels@.len() && levels@[a] == k;
                    assert(list@[a].0 == levels@[a]);
                    assert(named[a] == k);
                }
            }
            assert(named.to_set() =~= level_set(levels@));
        }
        Ok(list)
    }

    /// The final first-layer levels from `start_l1` to `end_l1`, both included, in ascending
    /// order, each with its span.
    pub fn list_by_l1_levels(connection: &Store, start_l1: i32, end_l1: i32) -> (r: Result<
        Vec<(i32, i32, i32)>,
        StoreError,
    >)
        ensures
            r is Ok,
            lists_spans(connection@.l1_l2_finalized_levels, r->Ok_0@),
            lists_range(
                connection@.l1_l2_finalized_levels,
                start_l1 as int,
                end_l1 as int,
                listed_levels(r->Ok_0@),
            ),
    {
        let table = &connection.l1_l2_finalized_levels;
        proof {
            use_type_invariant(table);
            table.lemma_positions();
        }
        let first: usize = table.lower_bound(start_l1);
        let bound: usize = table.upper_bound(end_l1);
        let behind: usize = if bound < first { first } else { bound };
        let mut list: Vec<(i32, i32, i32)> = Vec::new();
        let mut i: usize = first;
        while i < behind
            invariant
                table.wf(),
                first <= i <= behind <= table.keys().len(),
                list@.len() == i - first,
                forall|j: int|
                    0 <= j < list@.len() ==> (#[trigger] list@[j]).0 == table.keys()[first + j]
                        && list@[j].1 == table.vals()[first + j].start_l2_level && list@[j].2
                        == table.vals()[first + j].end_l2_level,
            decreases behind - i,
        {
            let span = table.val_at(i);
            list.push((table.key_at(i), span.start_l2_level, span.end_l2_level));
            i += 1;
        }
        proof {
            let named = listed_levels(list@);
            let m = connection@.l1_l2_finalized_levels;
            assert forall|a: int, b: int| 0 <= a < b < named.len() implies named[a] < named[b] by {
                assert(named[a] == list@[a].0 && named[b] == list@[b].0);
            }
            assert forall|k: int| named.contains(k) <==> m.contains_key(k) && start_l1 <= k
                <= end_l1 by {
                if named.contains(k) {
                    let a = choose|a: int| 0 <= a < named.len() && named[a] == k;
                    assert(named[a] == list@[a].0);
                    assert(m.contains_key(table.keys()[first + a]));
                }
                if m.contains_key(k) && start_l1 <= k <= end_l1 {
                    let j = choose|j: int| 0 <= j < table.keys().len() && table.keys()[j] == k;
                    assert(first <= j < bound);
                    assert(named[j - first] == list@[j - first].0);
                }
            }
            assert forall|a: int| 0 <= a < list@.len() implies m.contains_key(
                (#[trigger] list@[a]).0 as int,
            ) && m[list@[a].0 as int].start_l2_level == list@[a].1
                && m[list@[a].0 as int].end_l2_level == list@[a].2 by {
                assert(m[table.keys()[first + a]] == table.vals()[first + a]);
            }
            assert forall|a: int, b: int| 0 <= a < b < list@.len() implies list@[a].0
                < list@[b].0 by {
                assert(table.keys()[first + a] < table.keys()[first + b]);
            }
        }
        Ok(list)
    }

    /// Removes the final levels whose span ends strictly above `queried_level`. Returns how
    /// many they were.
    pub fn clear_after(connection: &mut Store, queried_level: i32) -> (r: Result<
        usize,
        StoreError,
    >)
        ensures
            r is Ok,
            r->Ok_0 == keys_where(
                old(connection)@.l1_l2_finalized_levels,
                ends_above(queried_level as int),
            ).len(),
            final(connection)@ == (StoreView {
                l1_l2_finalized_levels: old(connection)@.l1_l2_finalized_levels.remove_keys(
                    keys_where(
                        old(connection)@.l1_l2_finalized_levels,
                        ends_above(queried_level as int),
                    ),
                ),
                ..old(connection)@
            }),
    {
        let doomed = levels_passing(
            &connection.l1_l2_finalized_levels,
            SpanTest::EndsAbove(queried_level),
        );
        connection.l1_l2_finalized_levels.remove_all(&doomed);
        Ok(doomed.len())
    }

    /// Removes the final levels whose span starts strictly below `queried_level`. Returns how
    /// many they were.
    pub fn clear_before(connection: &mut Store, queried_level: i32) -> (r: Result<
        usize,
        StoreError,
    >)
        ensures
            r is Ok,
            r->Ok_0 == keys_where(
                old(connection)@.l1_l2_finalized_levels,
                starts_below(queried_level as int),
            ).len(),
            final(connection)@ == (StoreView {
                l1_l2_finalized_levels: old(connection)@.l1_l2_finalized_levels.remove_keys(
                    keys_where(
                        old(connection)@.l1_l2_finalized_levels,
                        starts_below(queried_level as int),
                    ),
                ),
                ..old(connection)@
            }),
    {
        let doomed = levels_passing(
            &connection.l1_l2_finalized_levels,
            SpanTest::StartsBelow(queried_level),
        );
        connection.l1_l2_finalized_levels.remove_all(&doomed);
        Ok(doomed.len())
    }
}

} // verus!
