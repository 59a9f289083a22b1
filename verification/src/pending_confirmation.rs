use vstd::prelude::*;
use crate::bytes::copy_bytes;
use crate::error::StoreError;
use crate::store::{Store, StoreView};

verus! {

/// The block hash that awaits confirmation at `level`.
#[derive(Debug)]
pub struct PendingConfirmation {
    pub level: i32,
    pub hash: Vec<u8>,
}

impl PendingConfirmation {
    /// Adds this marker at its level. A level that already has a marker keeps it, and the call
    /// fails.
    pub fn insert(self, connection: &mut Store) -> (r: Result<usize, StoreError>)
        ensures
            match r {
                Ok(n) => {
                    &&& n == 1
                    &&& !old(connection)@.pending_confirmations.contains_key(self.level as int)
                    &&& final(connection)@ == (StoreView {
                        pending_confirmations: old(connection)@.pending_confirmations.insert(
                            self.level as int,
                            self.hash@,
                        ),
                        ..old(connection)@
                    })
                },
                Err(e) => {
                    &&& e == StoreError::ConstraintViolation
                    &&& old(connection)@.pending_confirmations.contains_key(self.level as int)
                    &&& final(connection)@ == old(connection)@
                },
            },
    {
        if connection.pending_confirmations.insert_new(self.level, self.hash) {
            Ok(1)
        } else {
            Err(StoreError::ConstraintViolation)
        }
    }

    /// The hash that awaits confirmation at `queried_level`.
    pub fn select_with_level(connection: &Store, queried_level: i32) -> (r: Result<
        Vec<u8>,
        StoreError,
    >)
        ensures
            match r {
                Ok(hash) => connection@.pending_confirmations.contains_key(queried_level as int)
                    && hash@ == connection@.pending_confirmations[queried_level as int],
                Err(e) => e == StoreError::NotFound
                    && !connection@.pending_confirmations.contains_key(queried_level as int),
            },
    {
        match connection.pending_confirmations.get(queried_level) {
            Some(hash) => Ok(copy_bytes(hash)),
            None => Err(StoreError::NotFound),
        }
    }

    /// Removes the marker at `queried_level`. Returns how many markers it removed: 1, or 0
    /// where the level had none.
    pub fn delete_with_level(connection: &mut Store, queried_level: i32) -> (r: Result<
        usize,
        StoreError,
    >)
        ensures
            r == Ok::<usize, StoreError>(
                if old(connection)@.pending_confirmations.contains_key(queried_level as int) {
                    1
                } else {
                    0
                },
            ),
            final(connection)@ == (StoreView {
                pending_confirmations: old(connection)@.pending_confirmations.remove(
                    queried_level as int,
                ),
                ..old(connection)@
            }),
    {
        if connection.pending_confirmations.remove(queried_level) {
            Ok(1)
        } else {
            Ok(0)
        }
    }

    /// Removes every marker. Returns how many they were.
    pub fn clear(connection: &mut Store) -> (r: Result<usize, StoreError>)
        ensures
            r is Ok,
            r->Ok_0 == old(connection)@.pending_confirmations.dom().len(),
            final(connection)@ == (StoreView {
                pending_confirmations: Map::empty(),
                ..old(connection)@
            }),
    {
        Ok(connection.pending_confirmations.clear())
    }

    /// The number of markers.
    pub fn count(connection: &Store) -> (r: Result<i64, StoreError>)
        ensures
            r is Ok,
            r->Ok_0 == connection@.pending_confirmations.dom().len(),
    {
        Ok(connection.pending_confirmations.count())
    }
}

} // verus!
