use vstd::prelude::*;
use crate::bytes::copy_bytes;
use crate::error::StoreError;
use crate::model::{
    lemma_top_unique, levels_above, levels_below, only_above, top_of, without_above, without_below,
};
use crate::rows::keys_where;
use crate::store::{Store, StoreView};
use crate::upgrade::{
    Payload, UpgradeRow, activation_levels, applied_view, is_applied_above, is_unapplied,
    latest_unapplied, lists_activations, nullify_after, record_apply, restore, schedule,
    unapplied_rows, with_apply_nullified, with_apply_recorded,
};

verus! {

/// What a kernel upgrade activates, as the store holds it.
pub struct KernelPayloadRow {
    pub root_hash: Seq<u8>,
    pub activation_timestamp: int,
}

/// What a kernel upgrade activates: the root hash of the new kernel, from a timestamp on.
pub struct KernelPayload {
    pub root_hash: Vec<u8>,
    pub activation_timestamp: i32,
}

impl View for KernelPayload {
    type V = KernelPayloadRow;

    open spec fn view(&self) -> KernelPayloadRow {
        KernelPayloadRow {
            root_hash: self.root_hash@,
            activation_timestamp: self.activation_timestamp as int,
        }
    }
}

impl Payload for KernelPayload {
    fn duplicate(&self) -> (copy: Self) {
        KernelPayload {
            root_hash: copy_bytes(&self.root_hash),
            activation_timestamp: self.activation_timestamp,
        }
    }
}

/// What the store holds of one kernel upgrade.
pub type KernelUpgradeRow = UpgradeRow<KernelPayloadRow>;

/// A kernel upgrade injected before level `injected_before`. It is not applied until an
/// application is recorded, and not applied again once the chain goes back below the level
/// of that application.
#[derive(Debug)]
pub struct KernelUpgrade {
    pub injected_before: i32,
    pub root_hash: Vec<u8>,
    pub activation_timestamp: i32,
    pub applied_before: Option<i32>,
}

impl KernelUpgrade {
    /// What this upgrade activates.
    pub open spec fn payload(&self) -> KernelPayloadRow {
        KernelPayloadRow {
            root_hash: self.root_hash@,
            activation_timestamp: self.activation_timestamp as int,
        }
    }

    /// Stores this upgrade under its injection level as not applied, whatever its
    /// `applied_before` says, in place of the upgrade there if there is one.
    pub fn insert(self, connection: &mut Store) -> (r: Result<usize, StoreError>)
        ensures
            r == Ok::<usize, StoreError>(1),
            final(connection)@ == (StoreView {
                kernel_upgrades: old(connection)@.kernel_upgrades.insert(
                    self.injected_before as int,
                    UpgradeRow { payload: self.payload(), applied_before: None },
                ),
                ..old(connection)@
            }),
    {
        let payload = KernelPayload {
            root_hash: self.root_hash,
            activation_timestamp: self.activation_timestamp,
        };
        schedule(&mut connection.kernel_upgrades, self.injected_before, payload);
        Ok(1)
    }

    /// Stores this upgrade under its injection level in the state that it carries, applied at
    /// `applied_before` or not applied, in place of the upgrade there if there is one. This
    /// is how a ledger that was written out is read in again.
    pub fn restore(self, connection: &mut Store) -> (r: Result<usize, StoreError>)
        ensures
            r == Ok::<usize, StoreError>(1),
            final(connection)@ == (StoreView {
                kernel_upgrades: old(connection)@.kernel_upgrades.insert(
                    self.injected_before as int,
                    UpgradeRow {
                        payload: self.payload(),
                        applied_before: applied_view(self.applied_before),
                    },
                ),
                ..old(connection)@
            }),
    {
        let payload = KernelPayload {
            root_hash: self.root_hash,
            activation_timestamp: self.activation_timestamp,
        };
        restore(&mut connection.kernel_upgrades, self.injected_before, payload, self.applied_before);
        Ok(1)
    }

    /// The levels at which the upgrades were applied, once for each applied upgrade, the
    /// greatest first.
    pub fn activation_levels(connection: &Store) -> (r: Result<Vec<i32>, StoreError>)
        ensures
            r is Ok,
            lists_activations(connection@.kernel_upgrades, r->Ok_0@),
    {
        Ok(activation_levels(&connection.kernel_upgrades))
    }

    /// The upgrade injected last among those that have not been applied: its injection level,
    /// root hash and activation timestamp.
    pub fn get_latest_unapplied(connection: &Store) -> (r: Result<(i32, Vec<u8>, i32), StoreError>)
        ensures
            match r {
                Ok((injected_before, root_hash, activation_timestamp)) => {
                    let m = connection@.kernel_upgrades;
                    &&& top_of(unapplied_rows(m)) == Some(injected_before as int)
                    &&& m.contains_key(injected_before as int)
                    &&& root_hash@ == m[injected_before as int].payload.root_hash
                    &&& activation_timestamp
                        == m[injected_before as int].payload.activation_timestamp
                },
                Err(e) => e == StoreError::NotFound && keys_where(
                    connection@.kernel_upgrades,
                    is_unapplied(),
                ) == Set::<int>::empty(),
            },
    {
        let table = &connection.kernel_upgrades;
        match latest_unapplied(table) {
            Some(i) => {
                let stored = table.val_at(i);
                Ok(
                    (
                        table.key_at(i),
                        copy_bytes(&stored.payload.root_hash),
                        stored.payload.activation_timestamp,
                    ),
                )
            },
            None => Err(StoreError::NotFound),
        }
    }

    /// The root hash and the activation timestamp of the upgrade injected before
    /// `queried_level`.
    pub fn find_injected_before(connection: &Store, queried_level: i32) -> (r: Result<
        (Vec<u8>, i32),
        StoreError,
    >)
        ensures
            match r {
                Ok((root_hash, activation_timestamp)) => {
                    let m = connection@.kernel_upgrades;
                    &&& m.contains_key(queried_level as int)
                    &&& root_hash@ == m[queried_level as int].payload.root_hash
                    &&& activation_timestamp == m[queried_level as int].payload.activation_timestamp
                },
                Err(e) => e == StoreError::NotFound && !connection@.kernel_upgrades.contains_key(
                    queried_level as int,
                ),
            },
    {
        match connection.kernel_upgrades.get(queried_level) {
            Some(stored) => Ok(
                (copy_bytes(&stored.payload.root_hash), stored.payload.activation_timestamp),
            ),
            None => Err(StoreError::NotFound),
        }
    }

    /// The root hash and the activation timestamp of the upgrade injected last among those
    /// injected strictly above `queried_level`.
    pub fn find_latest_injected_after(connection: &Store, queried_level: i32) -> (r: Result<
        (Vec<u8>, i32),
        StoreError,
    >)
        ensures
            match r {
                Ok((root_hash, activation_timestamp)) => {
                    let m = connection@.kernel_upgrades;
                    match top_of(only_above(m, queried_level as int)) {
                        Some(level) => {
                            &&& m.contains_key(level)
                            &&& root_hash@ == m[level].payload.root_hash
                            &&& activation_timestamp == m[level].payload.activation_timestamp
                        },
                        None => false,
                    }
                },
                Err(e) => e == StoreError::NotFound && forall|k: int|
                    connection@.kernel_upgrades.contains_key(k) ==> k <= queried_level,
            },
    {
        let table = &connection.kernel_upgrades;
        proof {
            use_type_invariant(table);
            table.lemma_positions();
        }
        match table.last_key() {
            Some(level) => {
                if level > queried_level {
                    let stored = table.val_at(table.len() - 1);
                    proof {
                        lemma_top_unique(
                            only_above(connection@.kernel_upgrades, queried_level as int),
                            level as int,
                        );
                    }
                    Ok((copy_bytes(&stored.payload.root_hash), stored.payload.activation_timestamp))
                } else {
                    Err(StoreError::NotFound)
                }
            },
            None => Err(StoreError::NotFound),
        }
    }

    /// Marks every upgrade that has not been applied as applied at `level`. Returns how many
    /// upgrades it marked.
    pub fn record_apply(connection: &mut Store, level: i32) -> (r: Result<usize, StoreError>)
        ensures
            r is Ok,
            r->Ok_0 == keys_where(old(connection)@.kernel_upgrades, is_unapplied()).len(),
            final(connection)@ == (StoreView {
                kernel_upgrades: with_apply_recorded(
                    old(connection)@.kernel_upgrades,
                    level as int,
                ),
                ..old(connection)@
            }),
    {
        Ok(record_apply(&mut connection.kernel_upgrades, level))
    }

    /// Removes the upgrades injected strictly above `queried_level`. Returns how many they
    /// were.
    pub fn clear_after(connection: &mut Store, queried_level: i32) -> (r: Result<
        usize,
        StoreError,
    >)
        ensures
            r is Ok,
            r->Ok_0 == levels_above(old(connection)@.kernel_upgrades, queried_level as int).len(),
            final(connection)@ == (StoreView {
                kernel_upgrades: without_above(
                    old(connection)@.kernel_upgrades,
                    queried_level as int,
                ),
                ..old(connection)@
            }),
    {
        Ok(connection.kernel_upgrades.clear_after(queried_level))
    }

    /// Marks every upgrade that was applied strictly above `queried_level` as not applied: the
    /// upgrades stay. Returns how many upgrades it marked.
    pub fn nullify_after(connection: &mut Store, queried_level: i32) -> (r: Result<
        usize,
        StoreError,
    >)
        ensures
            r is Ok,
            r->Ok_0 == keys_where(
                old(connection)@.kernel_upgrades,
                is_applied_above(queried_level as int),
            ).len(),
            final(connection)@ == (StoreView {
                kernel_upgrades: with_apply_nullified(
                    old(connection)@.kernel_upgrades,
                    queried_level as int,
                ),
                ..old(connection)@
            }),
    {
        Ok(nullify_after(&mut connection.kernel_upgrades, queried_level))
    }

    /// Removes the upgrades injected strictly below `queried_level`. Returns how many they
    /// were.
    pub fn clear_before(connection: &mut Store, queried_level: i32) -> (r: Result<
        usize,
        StoreError,
    >)
        ensures
            r is Ok,
            r->Ok_0 == levels_below(old(connection)@.kernel_upgrades, queried_level as int).len(),
            final(connection)@ == (StoreView {
                kernel_upgrades: without_below(
                    old(connection)@.kernel_upgrades,
                    queried_level as int,
                ),
                ..old(connection)@
            }),
    {
        Ok(connection.kernel_upgrades.clear_before(queried_level))
    }
}

} // verus!
