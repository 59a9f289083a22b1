use vstd::prelude::*;
use crate::bytes::{copy_bytes, same_bytes};
use crate::error::StoreError;
use crate::rows::lemma_filter_nothing;
use crate::series::{
    Leveled, lemma_filter_agree, lemma_filter_first, lemma_filter_split, level_between,
    retain_between, views,
};
use crate::store::{Store, StoreView};

verus! {

/// What the store holds of one delayed transaction.
pub struct DelayedTransactionRow {
    pub injected_before: int,
    pub hash: Seq<u8>,
    pub payload: Seq<u8>,
}

/// A transaction that came through the delayed inbox, injected before level
/// `injected_before`. Neither that level nor the hash is reserved to one row.
#[derive(Debug)]
pub struct DelayedTransaction {
    pub injected_before: i32,
    pub hash: Vec<u8>,
    pub payload: Vec<u8>,
}

impl View for DelayedTransaction {
    type V = DelayedTransactionRow;

    open spec fn view(&self) -> DelayedTransactionRow {
        DelayedTransactionRow {
            injected_before: self.injected_before as int,
            hash: self.hash@,
            payload: self.payload@,
        }
    }
}

impl Leveled for DelayedTransaction {
    open spec fn level_of(row: DelayedTransactionRow) -> int {
        row.injected_before
    }

    fn level(&self) -> (level: i32) {
        self.injected_before
    }

    fn duplicate(&self) -> (copy: Self) {
        DelayedTransaction {
            injected_before: self.injected_before,
            hash: copy_bytes(&self.hash),
            payload: copy_bytes(&self.payload),
        }
    }
}

/// The test "was injected before `level`".
pub open spec fn injected_at(level: int) -> spec_fn(DelayedTransactionRow) -> bool {
    |row: DelayedTransactionRow| row.injected_before == level
}

/// The test "has this hash".
pub open spec fn hashed(hash: Seq<u8>) -> spec_fn(DelayedTransactionRow) -> bool {
    |row: DelayedTransactionRow| row.hash == hash
}

/// The test "was injected before `level` or a level below it".
pub open spec fn injected_not_above(level: int) -> spec_fn(DelayedTransactionRow) -> bool {
    |row: DelayedTransactionRow| row.injected_before <= level
}

/// The test "was injected before a level strictly above `level`".
pub open spec fn injected_above(level: int) -> spec_fn(DelayedTransactionRow) -> bool {
    |row: DelayedTransactionRow| row.injected_before > level
}

/// The test "was injected before `level` or a level above it".
pub open spec fn injected_not_below(level: int) -> spec_fn(DelayedTransactionRow) -> bool {
    |row: DelayedTransactionRow| row.injected_before >= level
}

/// The test "was injected before a level strictly below `level`".
pub open spec fn injected_below(level: int) -> spec_fn(DelayedTransactionRow) -> bool {
    |row: DelayedTransactionRow| row.injected_before < level
}

/// The payload of the first row that passes `test`, in the order in which the rows came.
pub open spec fn first_payload(
    rows: Seq<DelayedTransactionRow>,
    test: spec_fn(DelayedTransactionRow) -> bool,
) -> Option<Seq<u8>> {
    if rows.filter(test).len() > 0 {
        Some(rows.filter(test)[0].payload)
    } else {
        None
    }
}

impl DelayedTransaction {
    /// Adds this delayed transaction behind those that the store has.
    pub fn insert(self, connection: &mut Store) -> (r: Result<usize, StoreError>)
        ensures
            r == Ok::<usize, StoreError>(1),
            final(connection)@ == (StoreView {
                delayed_transactions: old(connection)@.delayed_transactions.push(self@),
                ..old(connection)@
            }),
    {
        let ghost row = self@;
        connection.delayed_transactions.push(self);
        assert(views(connection.delayed_transactions@) =~= old(connection)@.delayed_transactions.push(
            row,
        ));
        Ok(1)
    }

    /// The payload of the first delayed transaction injected before `queried_injected_before`.
    pub fn select_at_level(connection: &Store, queried_injected_before: i32) -> (r: Result<
        Vec<u8>,
        StoreError,
    >)
        ensures
            match r {
                Ok(payload) => first_payload(
                    connection@.delayed_transactions,
                    injected_at(queried_injected_before as int),
                ) == Some(payload@),
                Err(e) => e == StoreError::NotFound && first_payload(
                    connection@.delayed_transactions,
                    injected_at(queried_injected_before as int),
                ) is None,
            },
    {
        let rows = &connection.delayed_transactions;
        let ghost all = connection@.delayed_transactions;
        let ghost test = injected_at(queried_injected_before as int);
        let mut i: usize = 0;
        while i < rows.len()
            invariant
                i <= rows@.len(),
                all == views(rows@),
                all == connection@.delayed_transactions,
                test == injected_at(queried_injected_before as int),
                forall|j: int| 0 <= j < i ==> !test(#[trigger] all[j]),
            decreases rows.len() - i,
        {
            assert(all[i as int] == rows@[i as int]@);
            if rows[i].injected_before == queried_injected_before {
                proof {
                    lemma_filter_first(all, test, i as int);
                }
                return Ok(copy_bytes(&rows[i].payload));
            }
            i += 1;
        }
        proof {
            lemma_filter_nothing(all, test);
        }
        Err(StoreError::NotFound)
    }

    /// The payload of the first delayed transaction whose hash is `queried_hash`, byte for
    /// byte.
    pub fn select_at_hash(connection: &Store, queried_hash: &Vec<u8>) -> (r: Result<
        Vec<u8>,
        StoreError,
    >)
        ensures
            match r {
                Ok(payload) => first_payload(
                    connection@.delayed_transactions,
                    hashed(queried_hash@),
                ) == Some(payload@),
                Err(e) => e == StoreError::NotFound && first_payload(
                    connection@.delayed_transactions,
                    hashed(queried_hash@),
                ) is None,
            },
    {
        let rows = &connection.delayed_transactions;
        let ghost all = connection@.delayed_transactions;
        let ghost test = hashed(queried_hash@);
        let mut i: usize = 0;
        while i < rows.len()
            invariant
                i <= rows@.len(),
                all == views(rows@),
                all == connection@.delayed_transactions,
                test == hashed(queried_hash@),
                forall|j: int| 0 <= j < i ==> !test(#[trigger] all[j]),
            decreases rows.len() - i,
        {
            assert(all[i as int] == rows@[i as int]@);
            if same_bytes(&rows[i].hash, queried_hash) {
                proof {
                    lemma_filter_first(all, test, i as int);
                }
                return Ok(copy_bytes(&rows[i].payload));
            }
            i += 1;
        }
        proof {
            lemma_filter_nothing(all, test);
        }
        Err(StoreError::NotFound)
    }

    /// Removes the delayed transactions injected before a level strictly above
    /// `queried_level`. Returns how many they were.
    pub fn clear_after(connection: &mut Store, queried_level: i32) -> (r: Result<
        usize,
        StoreError,
    >)
        ensures
            r is Ok,
            r->Ok_0 == old(connection)@.delayed_transactions.filter(
                injected_above(queried_level as int),
            ).len(),
            final(connection)@ == (StoreView {
                delayed_transactions: old(connection)@.delayed_transactions.filter(
                    injected_not_above(queried_level as int),
                ),
                ..old(connection)@
            }),
    {
        proof {
            let all = connection@.delayed_transactions;
            lemma_filter_agree(
                all,
                level_between::<DelayedTransaction>(i32::MIN as int, queried_level as int),
                injected_not_above(queried_level as int),
            );
            lemma_filter_split(
                all,
                injected_not_above(queried_level as int),
                injected_above(queried_level as int),
            );
        }
        Ok(retain_between(&mut connection.delayed_transactions, i32::MIN, queried_level))
    }

    /// Removes the delayed transactions injected before a level strictly below
    /// `queried_level`. Returns how many they were.
    pub fn clear_before(connection: &mut Store, queried_level: i32) -> (r: Result<
        usize,
        StoreError,
    >)
        ensures
            r is Ok,
            r->Ok_0 == old(connection)@.delayed_transactions.filter(
                injected_below(queried_level as int),
            ).len(),
            final(connection)@ == (StoreView {
                delayed_transactions: old(connection)@.delayed_transactions.filter(
                    injected_not_below(queried_level as int),
                ),
                ..old(connection)@
            }),
    {
        proof {
            let all = connection@.delayed_transactions;
            lemma_filter_agree(
                all,
                level_between::<DelayedTransaction>(queried_level as int, i32::MAX as int),
                injected_not_below(queried_level as int),
            );
            lemma_filter_split(
                all,
                injected_not_below(queried_level as int),
                injected_below(queried_level as int),
            );
        }
        Ok(retain_between(&mut connection.delayed_transactions, queried_level, i32::MAX))
    }
}

} // verus!
