use vstd::prelude::*;
use crate::block::{has_hash, level_of_hash};
use crate::bytes::copy_bytes;
use crate::error::StoreError;
use crate::model::{base_of, levels_above, levels_below, top_of, without_above, without_below};
use crate::store::{Store, StoreView};

verus! {

/// The root of the state after level `id` was applied.
#[derive(Debug)]
pub struct ContextHash {
    pub id: i32,
    pub context_hash: Vec<u8>,
}

impl ContextHash {
    /// Stores this context hash at its level, in place of the one there if the level has one.
    pub fn insert(self, connection: &mut Store) -> (r: Result<usize, StoreError>)
        ensures
            r == Ok::<usize, StoreError>(1),
            final(connection)@ == (StoreView {
                context_hashes: old(connection)@.context_hashes.insert(
                    self.id as int,
                    self.context_hash@,
                ),
                ..old(connection)@
            }),
    {
        let _ = connection.context_hashes.insert_or_replace(self.id, self.context_hash);
        Ok(1)
    }

    /// The context hash at `queried_id`.
    pub fn select(connection: &Store, queried_id: i32) -> (r: Result<Vec<u8>, StoreError>)
        ensures
            match r {
                Ok(hash) => connection@.context_hashes.contains_key(queried_id as int) && hash@
                    == connection@.context_hashes[queried_id as int],
                Err(e) => e == StoreError::NotFound && !connection@.context_hashes.contains_key(
                    queried_id as int,
                ),
            },
    {
        match connection.context_hashes.get(queried_id) {
            Some(hash) => Ok(copy_bytes(hash)),
            None => Err(StoreError::NotFound),
        }
    }

    /// The greatest level that has a context hash, with that hash.
    pub fn get_latest(connection: &Store) -> (r: Result<(i32, Vec<u8>), StoreError>)
        ensures
            match r {
                Ok((level, hash)) => top_of(connection@.context_hashes) == Some(level as int)
                    && hash@ == connection@.context_hashes[level as int],
                Err(e) => e == StoreError::NotFound && connection@.context_hashes == Map::<
                    int,
                    Seq<u8>,
                >::empty(),
            },
    {
        let table = &connection.context_hashes;
        proof {
            use_type_invariant(table);
            table.lemma_positions();
        }
        match table.last_key() {
            Some(level) => {
                let hash: Vec<u8> = copy_bytes(table.val_at(table.len() - 1));
                Ok((level, hash))
            },
            None => Err(StoreError::NotFound),
        }
    }

    /// The least level that has a context hash, with that hash.
    pub fn get_earliest(connection: &Store) -> (r: Result<(i32, Vec<u8>), StoreError>)
        ensures
            match r {
                Ok((level, hash)) => base_of(connection@.context_hashes) == Some(level as int)
                    && hash@ == connection@.context_hashes[level as int],
                Err(e) => e == StoreError::NotFound && connection@.context_hashes == Map::<
                    int,
                    Seq<u8>,
                >::empty(),
            },
    {
        let table = &connection.context_hashes;
        proof {
            use_type_invariant(table);
            table.lemma_positions();
        }
        match table.first_key() {
            Some(level) => {
                let hash: Vec<u8> = copy_bytes(table.val_at(0));
                Ok((level, hash))
            },
            None => Err(StoreError::NotFound),
        }
    }

    /// Removes the context hashes strictly above `queried_id`. Returns how many they were.
    pub fn clear_after(connection: &mut Store, queried_id: i32) -> (r: Result<usize, StoreError>)
        ensures
            r is Ok,
            r->Ok_0 == levels_above(old(connection)@.context_hashes, queried_id as int).len(),
            final(connection)@ == (StoreView {
                context_hashes: without_above(old(connection)@.context_hashes, queried_id as int),
                ..old(connection)@
            }),
    {
        Ok(connection.context_hashes.clear_after(queried_id))
    }

    /// Removes the context hashes strictly below `queried_id`. Returns how many they were.
    pub fn clear_before(connection: &mut Store, queried_id: i32) -> (r: Result<usize, StoreError>)
        ensures
            r is Ok,
            r->Ok_0 == levels_below(old(connection)@.context_hashes, queried_id as int).len(),
            final(connection)@ == (StoreView {
                context_hashes: without_below(old(connection)@.context_hashes, queried_id as int),
                ..old(connection)@
            }),
    {
        Ok(connection.context_hashes.clear_before(queried_id))
    }
}

/// The context hash at the level of the block whose hash is `queried_block_hash`, byte for
/// byte. The call fails where no block has that hash, and where its level has no context
/// hash.
pub fn context_hash_of_block_hash(connection: &Store, queried_block_hash: &Vec<u8>) -> (r: Result<
    Vec<u8>,
    StoreError,
>)
    ensures
        match r {
            Ok(hash) => match level_of_hash(connection@.blocks, queried_block_hash@) {
                Some(level) => connection@.context_hashes.contains_key(level) && hash@
                    == connection@.context_hashes[level],
                None => false,
            },
            Err(e) => e == StoreError::NotFound && match level_of_hash(
                connection@.blocks,
                queried_block_hash@,
            ) {
                Some(level) => !connection@.context_hashes.contains_key(level),
                None => !has_hash(connection@.blocks, queried_block_hash@),
            },
        },
{
    match connection.blocks.level_of(queried_block_hash) {
        Some(level) => match connection.context_hashes.get(level) {
            Some(hash) => Ok(copy_bytes(hash)),
            None => Err(StoreError::NotFound),
        },
        None => Err(StoreError::NotFound),
    }
}

} // verus!
