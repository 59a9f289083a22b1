use vstd::prelude::*;
use crate::error::StoreError;
use crate::model::{levels_above, levels_below, top_of, without_above, without_below};
use crate::store::{Store, StoreView};

verus! {

/// The level of the first layer at which the second layer reached `latest_l2_level`.
#[derive(Debug)]
pub struct L1L2LevelRelationship {
    pub latest_l2_level: i32,
    pub l1_level: i32,
}

impl L1L2LevelRelationship {
    /// Adds this pair at its second-layer level. A level that already has a pair keeps it,
    /// and the call fails.
    pub fn insert(self, connection: &mut Store) -> (r: Result<usize, StoreError>)
        ensures
            match r {
                Ok(n) => {
                    &&& n == 1
                    &&& !old(connection)@.l1_l2_levels_relationships.contains_key(
                        self.latest_l2_level as int,
                    )
                    &&& final(connection)@ == (StoreView {
                        l1_l2_levels_relationships: old(
                            connection,
                        )@.l1_l2_levels_relationships.insert(
                            self.latest_l2_level as int,
                            self.l1_level,
                        ),
                        ..old(connection)@
                    })
                },
                Err(e) => {
                    &&& e == StoreError::ConstraintViolation
                    &&& old(connection)@.l1_l2_levels_relationships.contains_key(
                        self.latest_l2_level as int,
                    )
                    &&& final(connection)@ == old(connection)@
                },
            },
    {
        if connection.l1_l2_levels_relationships.insert_new(self.latest_l2_level, self.l1_level) {
            Ok(1)
        } else {
            Err(StoreError::ConstraintViolation)
        }
    }

    /// The pair with the greatest second-layer level: that level, then the first-layer level.
    pub fn get(connection: &Store) -> (r: Result<(i32, i32), StoreError>)
        ensures
            match r {
                Ok((latest_l2_level, l1_level)) => {
                    &&& top_of(connection@.l1_l2_levels_relationships) == Some(
                        latest_l2_level as int,
                    )
                    &&& l1_level == connection@.l1_l2_levels_relationships[latest_l2_level as int]
                },
                Err(e) => e == StoreError::NotFound && connection@.l1_l2_levels_relationships
                    == Map::<int, i32>::empty(),
            },
    {
        let table = &connection.l1_l2_levels_relationships;
        proof {
            use_type_invariant(table);
            table.lemma_positions();
        }
        match table.last_key() {
            Some(level) => Ok((level, *table.val_at(table.len() - 1))),
            None => Err(StoreError::NotFound),
        }
    }

    /// Removes the pairs strictly above `queried_level`. Returns how many they were.
    pub fn clear_after(connection: &mut Store, queried_level: i32) -> (r: Result<
        usize,
        StoreError,
    >)
        ensures
            r is Ok,
            r->Ok_0 == levels_above(
                old(connection)@.l1_l2_levels_relationships,
                queried_level as int,
            ).len(),
            final(connection)@ == (StoreView {
                l1_l2_levels_relationships: without_above(
                    old(connection)@.l1_l2_levels_relationships,
                    queried_level as int,
                ),
                ..old(connection)@
            }),
    {
        Ok(connection.l1_l2_levels_relationships.clear_after(queried_level))
    }

    /// Removes the pairs strictly below `queried_level`. Returns how many they were.
    pub fn clear_before(connection: &mut Store, queried_level: i32) -> (r: Result<
        usize,
        StoreError,
    >)
        ensures
            r is Ok,
            r->Ok_0 == levels_below(
                old(connection)@.l1_l2_levels_relationships,
                queried_level as int,
            ).len(),
            final(connection)@ == (StoreView {
                l1_l2_levels_relationships: without_below(
                    old(connection)@.l1_l2_levels_relationships,
                    queried_level as int,
                ),
                ..old(connection)@
            }),
    {
        Ok(connection.l1_l2_levels_relationships.clear_before(queried_level))
    }
}

} // verus!
