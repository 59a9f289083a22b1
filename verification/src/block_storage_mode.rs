use vstd::prelude::*;
use crate::error::StoreError;
use crate::store::{Store, StoreView};

verus! {

/// How the node stores its blocks: `legacy` is 1 for the legacy layout and 0 for the other.
#[derive(Debug)]
pub struct BlockStorageMode {
    pub legacy: i32,
}

impl BlockStorageMode {
    /// The storage mode, where one is set.
    pub fn legacy(connection: &Store) -> (r: Result<i32, StoreError>)
        ensures
            match r {
                Ok(legacy) => connection@.block_storage_mode == Some(legacy),
                Err(e) => e == StoreError::NotFound && connection@.block_storage_mode is None,
            },
    {
        match connection.block_storage_mode {
            Some(legacy) => Ok(legacy),
            None => Err(StoreError::NotFound),
        }
    }

    /// Makes the storage mode legacy, where one is set. Returns how many rows it changed: 1,
    /// or 0 where no mode is set.
    pub fn force_legacy(connection: &mut Store) -> (r: Result<usize, StoreError>)
        ensures
            match old(connection)@.block_storage_mode {
                Some(_) => r == Ok::<usize, StoreError>(1) && final(connection)@ == (StoreView {
                    block_storage_mode: Some(1i32),
                    ..old(connection)@
                }),
                None => r == Ok::<usize, StoreError>(0) && final(connection)@ == old(connection)@,
            },
    {
        match connection.block_storage_mode {
            Some(_) => {
                connection.block_storage_mode = Some(1);
                Ok(1)
            },
            None => Ok(0),
        }
    }
}

} // verus!
