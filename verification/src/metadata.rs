use vstd::prelude::*;
use crate::error::StoreError;
use crate::store::{Store, StoreView};

verus! {

/// The two settings of a node, each present or not.
pub struct MetadataView {
    pub smart_rollup_address: Option<Seq<char>>,
    pub history_mode: Option<Seq<char>>,
}

/// The characters of an optional string.
pub open spec fn optional_text(value: Option<String>) -> Option<Seq<char>> {
    match value {
        Some(text) => Some(text@),
        None => None,
    }
}

/// The settings of a node as the store keeps them.
pub struct MetadataTable {
    pub smart_rollup_address: Option<String>,
    pub history_mode: Option<String>,
}

impl View for MetadataTable {
    type V = MetadataView;

    open spec fn view(&self) -> MetadataView {
        MetadataView {
            smart_rollup_address: optional_text(self.smart_rollup_address),
            history_mode: optional_text(self.history_mode),
        }
    }
}

impl MetadataTable {
    /// No setting is present.
    pub fn new() -> (table: Self)
        ensures
            table@ == (MetadataView { smart_rollup_address: None, history_mode: None }),
    {
        MetadataTable { smart_rollup_address: None, history_mode: None }
    }
}

/// A setting of the node: a key and its value.
#[derive(Debug)]
pub struct Metadata {
    pub key: String,
    pub value: String,
}

impl Metadata {
    /// Sets the address of the smart rollup, in place of the one set before.
    pub fn insert_smart_rollup_address(connection: &mut Store, inserted_value: &str) -> (r: Result<
        usize,
        StoreError,
    >)
        ensures
            r == Ok::<usize, StoreError>(1),
            final(connection)@ == (StoreView {
                metadata: MetadataView {
                    smart_rollup_address: Some(inserted_value@),
                    ..old(connection)@.metadata
                },
                ..old(connection)@
            }),
    {
        connection.metadata.smart_rollup_address = Some(inserted_value.to_owned());
        Ok(1)
    }

    /// The address of the smart rollup.
    pub fn get_smart_rollup_address(connection: &Store) -> (r: Result<String, StoreError>)
        ensures
            match r {
                Ok(value) => connection@.metadata.smart_rollup_address == Some(value@),
                Err(e) => e == StoreError::NotFound && connection@.metadata.smart_rollup_address
                    is None,
            },
    {
        match &connection.metadata.smart_rollup_address {
            Some(value) => Ok(value.clone()),
            None => Err(StoreError::NotFound),
        }
    }

    /// Sets the history mode, in place of the one set before.
    pub fn insert_history_mode(connection: &mut Store, inserted_value: &str) -> (r: Result<
        usize,
        StoreError,
    >)
        ensures
            r == Ok::<usize, StoreError>(1),
            final(connection)@ == (StoreView {
                metadata: MetadataView {
                    history_mode: Some(inserted_value@),
                    ..old(connection)@.metadata
                },
                ..old(connection)@
            }),
    {
        connection.metadata.history_mode = Some(inserted_value.to_owned());
        Ok(1)
    }

    /// The history mode.
    pub fn get_history_mode(connection: &Store) -> (r: Result<String, StoreError>)
        ensures
            match r {
                Ok(value) => connection@.metadata.history_mode == Some(value@),
                Err(e) => e == StoreError::NotFound && connection@.metadata.history_mode is None,
            },
    {
        match &connection.metadata.history_mode {
            Some(value) => Ok(value.clone()),
            None => Err(StoreError::NotFound),
        }
    }
}

} // verus!
