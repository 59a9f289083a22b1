use vstd::prelude::*;
use crate::bytes::copy_bytes;
use crate::error::StoreError;
use crate::model::{
    base_of, levels_above, levels_below, lists_range, top_of, without_above, without_below,
};
use crate::store::{Store, StoreView};

verus! {

/// What the store holds of one level's blueprint.
pub struct BlueprintRow {
    pub payload: Seq<u8>,
    pub timestamp: int,
}

/// A blueprint as the table keeps it, under its level.
pub struct StoredBlueprint {
    pub payload: Vec<u8>,
    pub timestamp: i32,
}

impl View for StoredBlueprint {
    type V = BlueprintRow;

    open spec fn view(&self) -> BlueprintRow {
        BlueprintRow { payload: self.payload@, timestamp: self.timestamp as int }
    }
}

/// The raw payload from which the block of level `id` is made, and its timestamp.
#[derive(Debug)]
pub struct Blueprint {
    pub id: i32,
    pub payload: Vec<u8>,
    pub timestamp: i32,
}

/// The levels of the pairs of a range, in their order.
pub open spec fn range_levels(pairs: Seq<(i32, Vec<u8>)>) -> Seq<int> {
    Seq::new(pairs.len(), |i: int| pairs[i].0 as int)
}

impl Blueprint {
    /// The row that this blueprint becomes in the table.
    pub open spec fn row(&self) -> BlueprintRow {
        BlueprintRow { payload: self.payload@, timestamp: self.timestamp as int }
    }

    /// The payload and the timestamp of the blueprint at `queried_id`.
    pub fn select(connection: &Store, queried_id: i32) -> (r: Result<(Vec<u8>, i32), StoreError>)
        ensures
            match r {
                Ok((payload, timestamp)) => {
                    &&& connection@.blueprints.contains_key(queried_id as int)
                    &&& payload@ == connection@.blueprints[queried_id as int].payload
                    &&& timestamp == connection@.blueprints[queried_id as int].timestamp
                },
                Err(e) => e == StoreError::NotFound && !connection@.blueprints.contains_key(
                    queried_id as int,
                ),
            },
    {
        match connection.blueprints.get(queried_id) {
            Some(stored) => Ok((copy_bytes(&stored.payload), stored.timestamp)),
            None => Err(StoreError::NotFound),
        }
    }

    /// Adds this blueprint at its level. A level that already has a blueprint keeps it, and the
    /// call fails.
    pub fn insert(self, connection: &mut Store) -> (r: Result<usize, StoreError>)
        ensures
            match r {
                Ok(n) => {
                    &&& n == 1
                    &&& !old(connection)@.blueprints.contains_key(self.id as int)
                    &&& final(connection)@ == (StoreView {
                        blueprints: old(connection)@.blueprints.insert(self.id as int, self.row()),
                        ..old(connection)@
                    })
                },
                Err(e) => {
                    &&& e == StoreError::ConstraintViolation
                    &&& old(connection)@.blueprints.contains_key(self.id as int)
                    &&& final(connection)@ == old(connection)@
                },
            },
    {
        let stored = StoredBlueprint { payload: self.payload, timestamp: self.timestamp };
        if connection.blueprints.insert_new(self.id, stored) {
            Ok(1)
        } else {
            Err(StoreError::ConstraintViolation)
        }
    }

    /// The levels from `lowerlevel` to `upperlevel`, both included, that have a blueprint, in
    /// ascending order, each with its payload.
    pub fn select_range(connection: &Store, lowerlevel: i32, upperlevel: i32) -> (r: Result<
        Vec<(i32, Vec<u8>)>,
        StoreError,
    >)
        ensures
            r is Ok,
            lists_range(
                connection@.blueprints,
                lowerlevel as int,
                upperlevel as int,
                range_levels(r->Ok_0@),
            ),
            forall|i: int|
                0 <= i < r->Ok_0@.len() ==> (#[trigger] r->Ok_0@[i]).1@
                    == connection@.blueprints[r->Ok_0@[i].0 as int].payload,
    {
        let table = &connection.blueprints;
        proof {
            use_type_invariant(table);
            table.lemma_positions();
        }
        let first: usize = table.lower_bound(lowerlevel);
        let bound: usize = table.upper_bound(upperlevel);
        let behind: usize = if bound < first { first } else { bound };
        let mut pairs: Vec<(i32, Vec<u8>)> = Vec::new();
        let mut i: usize = first;
        while i < behind
            invariant
                table.wf(),
                first <= i <= behind <= table.keys().len(),
                pairs@.len() == i - first,
                forall|j: int|
                    0 <= j < pairs@.len() ==> (#[trigger] pairs@[j]).0 == table.keys()[first + j]
                        && pairs@[j].1@ == table.vals()[first + j].payload,
            decreases behind - i,
        {
            let level: i32 = table.key_at(i);
            let payload: Vec<u8> = copy_bytes(&table.val_at(i).payload);
            pairs.push((level, payload));
            i += 1;
        }
        proof {
            let keys = range_levels(pairs@);
            let m = connection@.blueprints;
            assert forall|a: int, b: int| 0 <= a < b < keys.len() implies keys[a] < keys[b] by {
                assert(keys[a] == pairs@[a].0 && keys[b] == pairs@[b].0);
            }
            assert forall|k: int| keys.contains(k) <==> m.contains_key(k) && lowerlevel <= k
                <= upperlevel by {
                if keys.contains(k) {
                    let a = choose|a: int| 0 <= a < keys.len() && keys[a] == k;
                    assert(keys[a] == pairs@[a].0);
                    assert(m.contains_key(table.keys()[first + a]));
                }
                if m.contains_key(k) && lowerlevel <= k <= upperlevel {
                    let j = choose|j: int| 0 <= j < table.keys().len() && table.keys()[j] == k;
                    assert(first <= j < bound);
                    assert(keys[j - first] == pairs@[j - first].0);
                }
            }
            assert forall|a: int| 0 <= a < pairs@.len() implies (#[trigger] pairs@[a]).1@
                == m[pairs@[a].0 as int].payload by {
                assert(m[table.keys()[first + a]] == table.vals()[first + a]);
            }
        }
        Ok(pairs)
    }

    /// Removes the blueprints strictly above `level`. Returns how many they were.
    pub fn clear_after(connection: &mut Store, level: i32) -> (r: Result<usize, StoreError>)
        ensures
            r is Ok,
            r->Ok_0 == levels_above(old(connection)@.blueprints, level as int).len(),
            final(connection)@ == (StoreView {
                blueprints: without_above(old(connection)@.blueprints, level as int),
                ..old(connection)@
            }),
    {
        Ok(connection.blueprints.clear_after(level))
    }

    /// Removes the blueprints strictly below `level`. Returns how many they were.
    pub fn clear_before(connection: &mut Store, level: i32) -> (r: Result<usize, StoreError>)
        ensures
            r is Ok,
            r->Ok_0 == levels_below(old(connection)@.blueprints, level as int).len(),
            final(connection)@ == (StoreView {
                blueprints: without_below(old(connection)@.blueprints, level as int),
                ..old(connection)@
            }),
    {
        Ok(connection.blueprints.clear_before(level))
    }

    /// The number of blueprints.
    pub fn count(connection: &Store) -> (r: Result<i64, StoreError>)
        ensures
            r is Ok,
            r->Ok_0 == connection@.blueprints.dom().len(),
    {
        Ok(connection.blueprints.count())
    }

    /// The least level that has a blueprint.
    pub fn base_level(connection: &Store) -> (r: Result<i32, StoreError>)
        ensures
            match r {
                Ok(level) => base_of(connection@.blueprints) == Some(level as int),
                Err(e) => e == StoreError::NotFound && connection@.blueprints
                    == Map::<int, BlueprintRow>::empty(),
            },
    {
        match connection.blueprints.first_key() {
            Some(level) => Ok(level),
            None => Err(StoreError::NotFound),
        }
    }

    /// The greatest level that has a blueprint.
    pub fn top_level(connection: &Store) -> (r: Result<i32, StoreError>)
        ensures
            match r {
                Ok(level) => top_of(connection@.blueprints) == Some(level as int),
                Err(e) => e == StoreError::NotFound && connection@.blueprints
                    == Map::<int, BlueprintRow>::empty(),
            },
    {
        match connection.blueprints.last_key() {
            Some(level) => Ok(level),
            None => Err(StoreError::NotFound),
        }
    }
}

} // verus!
