use vstd::prelude::*;
use crate::error::StoreError;
use crate::metadata::optional_text;
use crate::model::top_of;
use crate::store::{Store, StoreView};

verus! {

/// A migration as the table keeps it, under its number.
pub struct StoredMigration {
    pub name: Option<String>,
}

impl View for StoredMigration {
    type V = Option<Seq<char>>;

    open spec fn view(&self) -> Option<Seq<char>> {
        optional_text(self.name)
    }
}

/// A change of layout that the store has gone through: its number and, where it has one, its
/// name.
#[derive(Debug)]
pub struct Migration {
    pub id: i32,
    pub name: Option<String>,
}

impl Migration {
    /// The number of the last migration that the store has gone through.
    pub fn current_migration(connection: &Store) -> (r: Result<i32, StoreError>)
        ensures
            match r {
                Ok(id) => top_of(connection@.migrations) == Some(id as int),
                Err(e) => e == StoreError::NotFound && connection@.migrations == Map::<
                    int,
                    Option<Seq<char>>,
                >::empty(),
            },
    {
        match connection.migrations.last_key() {
            Some(id) => Ok(id),
            None => Err(StoreError::NotFound),
        }
    }

    /// Records this migration under its number. A number that is already recorded keeps its
    /// migration, and the call fails.
    pub fn register_migration(self, connection: &mut Store) -> (r: Result<usize, StoreError>)
        ensures
            match r {
                Ok(n) => {
                    &&& n == 1
                    &&& !old(connection)@.migrations.contains_key(self.id as int)
                    &&& final(connection)@ == (StoreView {
                        migrations: old(connection)@.migrations.insert(
                            self.id as int,
                            optional_text(self.name),
                        ),
                        ..old(connection)@
                    })
                },
                Err(e) => {
                    &&& e == StoreError::ConstraintViolation
                    &&& old(connection)@.migrations.contains_key(self.id as int)
                    &&& final(connection)@ == old(connection)@
                },
            },
    {
        if connection.migrations.insert_new(self.id, StoredMigration { name: self.name }) {
            Ok(1)
        } else {
            Err(StoreError::ConstraintViolation)
        }
    }
}

} // verus!
