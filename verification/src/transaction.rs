use vstd::prelude::*;
use crate::bytes::{copy_bytes, copy_optional_bytes, optional_bytes_view, same_bytes};
use crate::error::StoreError;
use crate::rows::{lemma_filter_members, lemma_filter_step};
use crate::series::{
    Leveled, lemma_filter_agree, lemma_filter_split, level_between, retain_between, views,
};
use crate::store::{Store, StoreView};

verus! {

/// What the store holds of one transaction.
pub struct TransactionRow {
    pub block_hash: Seq<u8>,
    pub block_number: int,
    pub index: int,
    pub hash: Seq<u8>,
    pub from: Seq<u8>,
    pub to: Option<Seq<u8>>,
    pub receipt_fields: Seq<u8>,
    pub object_fields: Seq<u8>,
}

/// One transaction of the block at level `block_number`. Its receipt and its object are two
/// views of this one record.
#[derive(Debug)]
pub struct Transaction {
    pub block_hash: Vec<u8>,
    pub block_number: i32,
    pub index_: i32,
    pub hash: Vec<u8>,
    pub from_: Vec<u8>,
    pub to_: Option<Vec<u8>>,
    pub receipt_fields: Vec<u8>,
    pub object_fields: Vec<u8>,
}

impl View for Transaction {
    type V = TransactionRow;

    open spec fn view(&self) -> TransactionRow {
        TransactionRow {
            block_hash: self.block_hash@,
            block_number: self.block_number as int,
            index: self.index_ as int,
            hash: self.hash@,
            from: self.from_@,
            to: optional_bytes_view(self.to_),
            receipt_fields: self.receipt_fields@,
            object_fields: self.object_fields@,
        }
    }
}

/// The rows of a sequence of transactions, in their order.
pub open spec fn rows_of(batch: Seq<Transaction>) -> Seq<TransactionRow> {
    Seq::new(batch.len(), |i: int| batch[i]@)
}

/// A transaction with its block, seen as a receipt or as an object: block hash, block number,
/// index, hash, sender, recipient, and the fields of the view.
pub type Detail = (Seq<u8>, int, int, Seq<u8>, Seq<u8>, Option<Seq<u8>>, Seq<u8>);

/// A receipt within its block: block hash, index, hash, sender, recipient, receipt fields.
pub type Receipt = (Seq<u8>, int, Seq<u8>, Seq<u8>, Option<Seq<u8>>, Seq<u8>);

/// An object within its block: index, hash, sender, recipient, object fields.
pub type Object = (int, Seq<u8>, Seq<u8>, Option<Seq<u8>>, Seq<u8>);

/// The receipt of a row, with its block.
pub open spec fn receipt_detail(row: TransactionRow) -> Detail {
    (row.block_hash, row.block_number, row.index, row.hash, row.from, row.to, row.receipt_fields)
}

/// The object of a row, with its block.
pub open spec fn object_detail(row: TransactionRow) -> Detail {
    (row.block_hash, row.block_number, row.index, row.hash, row.from, row.to, row.object_fields)
}

/// The receipt of a row.
pub open spec fn receipt_of(row: TransactionRow) -> Receipt {
    (row.block_hash, row.index, row.hash, row.from, row.to, row.receipt_fields)
}

/// The object of a row.
pub open spec fn object_of(row: TransactionRow) -> Object {
    (row.index, row.hash, row.from, row.to, row.object_fields)
}

/// What a returned receipt or object with its block holds.
pub open spec fn detail_view(
    t: (Vec<u8>, i32, i32, Vec<u8>, Vec<u8>, Option<Vec<u8>>, Vec<u8>),
) -> Detail {
    (t.0@, t.1 as int, t.2 as int, t.3@, t.4@, optional_bytes_view(t.5), t.6@)
}

/// What a returned receipt holds.
pub open spec fn receipt_view(t: (Vec<u8>, i32, Vec<u8>, Vec<u8>, Option<Vec<u8>>, Vec<u8>)) -> Receipt {
    (t.0@, t.1 as int, t.2@, t.3@, optional_bytes_view(t.4), t.5@)
}

/// What a returned object holds.
pub open spec fn object_view(t: (i32, Vec<u8>, Vec<u8>, Option<Vec<u8>>, Vec<u8>)) -> Object {
    (t.0 as int, t.1@, t.2@, optional_bytes_view(t.3), t.4@)
}

/// What a returned list of receipts holds.
pub open spec fn receipt_views(
    list: Seq<(Vec<u8>, i32, Vec<u8>, Vec<u8>, Option<Vec<u8>>, Vec<u8>)>,
) -> Seq<Receipt> {
    Seq::new(list.len(), |i: int| receipt_view(list[i]))
}

/// What a returned list of objects holds.
pub open spec fn object_views(list: Seq<(i32, Vec<u8>, Vec<u8>, Option<Vec<u8>>, Vec<u8>)>) -> Seq<
    Object,
> {
    Seq::new(list.len(), |i: int| object_view(list[i]))
}

/// The test "belongs to a block from level `lo` to level `hi`, both included".
pub open spec fn between(lo: int, hi: int) -> spec_fn(TransactionRow) -> bool {
    |row: TransactionRow| lo <= row.block_number <= hi
}

/// The receipts of the block at level `n`, in the order of the rows.
pub open spec fn receipts_in_block(rows: Seq<TransactionRow>, n: int) -> Seq<Receipt> {
    rows.filter(in_block(n)).map_values(|row: TransactionRow| receipt_of(row))
}

/// The objects of the block at level `n`, in the order of the rows.
pub open spec fn objects_in_block(rows: Seq<TransactionRow>, n: int) -> Seq<Object> {
    rows.filter(in_block(n)).map_values(|row: TransactionRow| object_of(row))
}

/// The test "belongs to the block at level `n`".
pub open spec fn in_block(n: int) -> spec_fn(TransactionRow) -> bool {
    |row: TransactionRow| row.block_number == n
}

/// The test "belongs to a block at level `n` or below".
pub open spec fn not_above(n: int) -> spec_fn(TransactionRow) -> bool {
    |row: TransactionRow| row.block_number <= n
}

/// The test "belongs to a block strictly above level `n`".
pub open spec fn above(n: int) -> spec_fn(TransactionRow) -> bool {
    |row: TransactionRow| row.block_number > n
}

/// The test "belongs to a block at level `n` or above".
pub open spec fn not_below(n: int) -> spec_fn(TransactionRow) -> bool {
    |row: TransactionRow| row.block_number >= n
}

/// The test "belongs to a block strictly below level `n`".
pub open spec fn below(n: int) -> spec_fn(TransactionRow) -> bool {
    |row: TransactionRow| row.block_number < n
}

/// Some row has this hash.
pub open spec fn holds_hash(rows: Seq<TransactionRow>, hash: Seq<u8>) -> bool {
    exists|i: int| 0 <= i < rows.len() && (#[trigger] rows[i]).hash == hash
}

/// No two rows have the same hash.
pub open spec fn distinct_hashes(rows: Seq<TransactionRow>) -> bool {
    forall|i: int, j: int|
        0 <= i < rows.len() && 0 <= j < rows.len() && i != j ==> (#[trigger] rows[i]).hash != (
        #[trigger] rows[j]).hash
}

/// The row with this hash, if there is one.
pub open spec fn with_hash(rows: Seq<TransactionRow>, hash: Seq<u8>) -> Option<TransactionRow> {
    if holds_hash(rows, hash) {
        Some(rows[choose|i: int| 0 <= i < rows.len() && (#[trigger] rows[i]).hash == hash])
    } else {
        None
    }
}

/// Where hashes are not shared, the row at a position is the row with its hash.
pub proof fn lemma_with_hash(rows: Seq<TransactionRow>, i: int)
    requires
        distinct_hashes(rows),
        0 <= i < rows.len(),
    ensures
        with_hash(rows, rows[i].hash) == Some(rows[i]),
{
    let hash = rows[i].hash;
    assert(holds_hash(rows, hash));
    let j = choose|j: int| 0 <= j < rows.len() && (#[trigger] rows[j]).hash == hash;
    assert(j == i);
}

/// Rows that pass a test share no hash, where the rows they were taken from share none.
pub proof fn lemma_filter_distinct(rows: Seq<TransactionRow>, test: spec_fn(TransactionRow) -> bool)
    requires
        distinct_hashes(rows),
    ensures
        distinct_hashes(rows.filter(test)),
    decreases rows.len(),
{
    reveal(Seq::filter);
    if rows.len() > 0 {
        let front = rows.drop_last();
        assert(distinct_hashes(front)) by {
            assert forall|i: int, j: int|
                0 <= i < front.len() && 0 <= j < front.len() && i != j implies (
            #[trigger] front[i]).hash != (#[trigger] front[j]).hash by {
                assert(front[i] == rows[i] && front[j] == rows[j]);
            }
        }
        lemma_filter_distinct(front, test);
        lemma_filter_members(front, test);
        let sub = front.filter(test);
        let out = rows.filter(test);
        assert forall|i: int, j: int|
            0 <= i < out.len() && 0 <= j < out.len() && i != j implies (#[trigger] out[i]).hash
            != (#[trigger] out[j]).hash by {
            if i < sub.len() && j < sub.len() {
                assert(out[i] == sub[i] && out[j] == sub[j]);
            } else {
                let a = if i < sub.len() { i } else { j };
                assert(front.contains(sub[a]));
                let k = choose|k: int| 0 <= k < front.len() && front[k] == sub[a];
                assert(rows[k] == sub[a]);
                assert(rows[k].hash != rows[rows.len() - 1].hash);
            }
        }
    }
}

/// The transactions of a chain, in the order in which they came. No two have the same hash.
pub struct TransactionTable {
    rows: Vec<Transaction>,
}

impl View for TransactionTable {
    type V = Seq<TransactionRow>;

    closed spec fn view(&self) -> Seq<TransactionRow> {
        rows_of(self.rows@)
    }
}

impl Leveled for Transaction {
    open spec fn level_of(row: TransactionRow) -> int {
        row.block_number
    }

    fn level(&self) -> (level: i32) {
        self.block_number
    }

    fn duplicate(&self) -> (copy: Self) {
        copy_transaction(self)
    }
}

/// A copy of a transaction.
pub fn copy_transaction(t: &Transaction) -> (copy: Transaction)
    ensures
        copy@ == t@,
{
    Transaction {
        block_hash: copy_bytes(&t.block_hash),
        block_number: t.block_number,
        index_: t.index_,
        hash: copy_bytes(&t.hash),
        from_: copy_bytes(&t.from_),
        to_: copy_optional_bytes(&t.to_),
        receipt_fields: copy_bytes(&t.receipt_fields),
        object_fields: copy_bytes(&t.object_fields),
    }
}

impl TransactionTable {
    /// The representation invariant: no hash is shared.
    #[verifier::type_invariant]
    pub closed spec fn wf(&self) -> bool {
        distinct_hashes(rows_of(self.rows@))
    }

    /// In a table that holds its invariant no hash is shared.
    pub proof fn lemma_hashes_distinct(&self)
        requires
            self.wf(),
        ensures
            distinct_hashes(self@),
    {
    }

    /// A table without transactions.
    pub fn new() -> (table: Self)
        ensures
            table@ == Seq::<TransactionRow>::empty(),
    {
        let table = TransactionTable { rows: Vec::new() };
        assert(table@ =~= Seq::<TransactionRow>::empty());
        table
    }

    /// The number of transactions.
    pub fn len(&self) -> (n: usize)
        ensures
            n == self@.len(),
    {
        self.rows.len()
    }

    /// The transaction at position `i`.
    pub fn row_at(&self, i: usize) -> (row: &Transaction)
        requires
            i < self@.len(),
        ensures
            row@ == self@[i as int],
    {
        &self.rows[i]
    }

    /// The position of the transaction with this hash.
    pub fn position(&self, hash: &Vec<u8>) -> (found: Option<usize>)
        ensures
            match found {
                Some(i) => i < self@.len() && self@[i as int].hash == hash@ && with_hash(
                    self@,
                    hash@,
                ) == Some(self@[i as int]),
                None => !holds_hash(self@, hash@),
            },
    {
        proof {
            use_type_invariant(self);
        }
        let mut i: usize = 0;
        while i < self.rows.len()
            invariant
                i <= self.rows@.len(),
                self.wf(),
                forall|j: int| 0 <= j < i ==> (#[trigger] self@[j]).hash != hash@,
            decreases self.rows.len() - i,
        {
            assert(self@[i as int] == self.rows@[i as int]@);
            if same_bytes(&self.rows[i].hash, hash) {
                proof {
                    lemma_with_hash(self@, i as int);
                }
                return Some(i);
            }
            i += 1;
        }
        None
    }

    /// Whether the transactions of `batch` can be added: none of their hashes is in the table
    /// or occurs twice in the batch.
    pub fn accepts(&self, batch: &Vec<Transaction>) -> (fresh: bool)
        ensures
            fresh == distinct_hashes(self@ + rows_of(batch@)),
    {
        proof {
            use_type_invariant(self);
        }
        let ghost all = self@ + rows_of(batch@);
        let ghost base = self@.len();
        let mut i: usize = 0;
        while i < batch.len()
            invariant
                i <= batch@.len(),
                self.wf(),
                all == self@ + rows_of(batch@),
                base == self@.len(),
                distinct_hashes(all.take(base + i)),
            decreases batch.len() - i,
        {
            let hash = &batch[i].hash;
            assert(all[base + i] == batch@[i as int]@);
            let mut clash: bool = self.position(hash).is_some();
            proof {
                if clash {
                    let a = choose|a: int| 0 <= a < self@.len() && (#[trigger] self@[a]).hash
                        == hash@;
                    assert(all[a] == self@[a]);
                    assert(all[a].hash == all[base + i].hash);
                }
            }
            let mut j: usize = 0;
            while !clash && j < i
                invariant
                    j <= i < batch@.len(),
                    all == self@ + rows_of(batch@),
                    base == self@.len(),
                    hash@ == batch@[i as int].hash@,
                    clash ==> exists|a: int|
                        0 <= a < base + i && (#[trigger] all[a]).hash == all[base + i].hash,
                    !clash ==> forall|a: int|
                        0 <= a < base + j ==> (#[trigger] all[a]).hash != all[base + i].hash,
                decreases i - j + if clash { 0int } else { 1int },
            {
                assert(all[base + j] == batch@[j as int]@);
                if same_bytes(&batch[j].hash, hash) {
                    clash = true;
                } else {
                    j += 1;
                }
            }
            if clash {
                proof {
                    let a = choose|a: int|
                        0 <= a < base + i && (#[trigger] all[a]).hash == all[base + i].hash;
                    assert(all[a].hash == all[base + i].hash);
                }
                return false;
            }
            proof {
                let next = all.take(base + i + 1);
                assert forall|a: int, b: int|
                    0 <= a < next.len() && 0 <= b < next.len() && a != b implies (
                #[trigger] next[a]).hash != (#[trigger] next[b]).hash by {
                    let before = all.take(base + i);
                    if a < base + i && b < base + i {
                        assert(before[a] == all[a] && before[b] == all[b]);
                    } else if a < base + i {
                        assert(all[a].hash != all[base + i].hash);
                    } else {
                        assert(all[b].hash != all[base + i].hash);
                    }
                }
            }
            i += 1;
        }
        assert(all.take(base + i) =~= all);
        true
    }

    /// Adds the transactions of `batch`, in their order, unless one of their hashes is in the
    /// table or occurs twice in the batch: then it adds none. Returns whether it added them.
    pub fn extend(&mut self, batch: &Vec<Transaction>) -> (added: bool)
        ensures
            added == distinct_hashes(old(self)@ + rows_of(batch@)),
            added ==> final(self)@ == old(self)@ + rows_of(batch@),
            !added ==> final(self)@ == old(self)@,
    {
        if !self.accepts(batch) {
            return false;
        }
        let mut rows: Vec<Transaction> = Vec::new();
        core::mem::swap(&mut self.rows, &mut rows);
        let mut k: usize = 0;
        while k < batch.len()
            invariant
                k <= batch@.len(),
                rows_of(rows@) == old(self)@ + rows_of(batch@).take(k as int),
            decreases batch.len() - k,
        {
            let ghost prev = rows@;
            let copy = copy_transaction(&batch[k]);
            rows.push(copy);
            proof {
                assert(rows_of(rows@) =~= rows_of(prev).push(batch@[k as int]@));
                assert(rows_of(batch@).take(k + 1) =~= rows_of(batch@).take(k as int).push(
                    batch@[k as int]@,
                ));
            }
            k += 1;
        }
        assert(rows_of(batch@).take(k as int) =~= rows_of(batch@));
        self.rows = rows;
        true
    }

    /// Keeps the transactions of the blocks from level `lo` to level `hi`, both included, in
    /// their order, and removes the others. Returns how many it removed.
    fn retain_blocks(&mut self, lo: i32, hi: i32) -> (removed: usize)
        ensures
            final(self)@ == old(self)@.filter(between(lo as int, hi as int)),
            removed == old(self)@.len() - final(self)@.len(),
    {
        proof {
            use_type_invariant(&*self);
        }
        let mut rows: Vec<Transaction> = Vec::new();
        core::mem::swap(&mut self.rows, &mut rows);
        let removed: usize = retain_between(&mut rows, lo, hi);
        proof {
            let all = old(self)@;
            assert(views(old(self).rows@) =~= all);
            assert(views(rows@) =~= rows_of(rows@));
            lemma_filter_agree(
                all,
                level_between::<Transaction>(lo as int, hi as int),
                between(lo as int, hi as int),
            );
            lemma_filter_distinct(all, between(lo as int, hi as int));
        }
        self.rows = rows;
        removed
    }

    /// Adds a transaction unless its hash is in the table. Returns whether it was added.
    pub fn insert(&mut self, t: Transaction) -> (added: bool)
        ensures
            added == !holds_hash(old(self)@, t.hash@),
            added ==> final(self)@ == old(self)@.push(t@),
            !added ==> final(self)@ == old(self)@,
    {
        proof {
            use_type_invariant(&*self);
        }
        if self.position(&t.hash).is_some() {
            return false;
        }
        let ghost row = t@;
        let mut rows: Vec<Transaction> = Vec::new();
        core::mem::swap(&mut self.rows, &mut rows);
        rows.push(t);
        proof {
            let next = rows_of(rows@);
            assert(next =~= old(self)@.push(row));
            assert forall|i: int, j: int|
                0 <= i < next.len() && 0 <= j < next.len() && i != j implies (
            #[trigger] next[i]).hash != (#[trigger] next[j]).hash by {
                if i < old(self)@.len() && j < old(self)@.len() {
                    assert(next[i] == old(self)@[i] && next[j] == old(self)@[j]);
                } else if i < old(self)@.len() {
                    assert(next[i] == old(self)@[i]);
                } else {
                    assert(next[j] == old(self)@[j]);
                }
            }
        }
        self.rows = rows;
        true
    }

    /// Every row belongs to a block whose level a 32-bit number can hold.
    pub proof fn lemma_block_numbers(&self)
        ensures
            forall|i: int|
                0 <= i < self@.len() ==> i32::MIN <= (#[trigger] self@[i]).block_number
                    <= i32::MAX,
    {
    }

    /// Removes the transactions of the blocks strictly above level `n`. Returns how many they
    /// were.
    pub fn clear_after(&mut self, n: i32) -> (removed: usize)
        ensures
            final(self)@ == old(self)@.filter(not_above(n as int)),
            removed == old(self)@.filter(above(n as int)).len(),
    {
        proof {
            self.lemma_block_numbers();
            lemma_filter_agree(self@, between(i32::MIN as int, n as int), not_above(n as int));
            lemma_filter_split(self@, not_above(n as int), above(n as int));
        }
        self.retain_blocks(i32::MIN, n)
    }

    /// Removes the transactions of the blocks strictly below level `n`. Returns how many they
    /// were.
    pub fn clear_before(&mut self, n: i32) -> (removed: usize)
        ensures
            final(self)@ == old(self)@.filter(not_below(n as int)),
            removed == old(self)@.filter(below(n as int)).len(),
    {
        proof {
            self.lemma_block_numbers();
            lemma_filter_agree(self@, between(n as int, i32::MAX as int), not_below(n as int));
            lemma_filter_split(self@, not_below(n as int), below(n as int));
        }
        self.retain_blocks(n, i32::MAX)
    }
}

impl Transaction {
    /// Adds this transaction. Where the store has a transaction with this hash, nothing changes
    /// and the call fails.
    pub fn insert(self, connection: &mut Store) -> (r: Result<usize, StoreError>)
        ensures
            match r {
                Ok(n) => {
                    &&& n == 1
                    &&& !holds_hash(old(connection)@.transactions, self.hash@)
                    &&& final(connection)@ == (StoreView {
                        transactions: old(connection)@.transactions.push(self@),
                        ..old(connection)@
                    })
                },
                Err(e) => {
                    &&& e == StoreError::ConstraintViolation
                    &&& holds_hash(old(connection)@.transactions, self.hash@)
                    &&& final(connection)@ == old(connection)@
                },
            },
            distinct_hashes(final(connection)@.transactions),
    {
        let added: bool = connection.transactions.insert(self);
        proof {
            use_type_invariant(&connection.transactions);
            connection.transactions.lemma_hashes_distinct();
        }
        if added {
            Ok(1)
        } else {
            Err(StoreError::ConstraintViolation)
        }
    }

    /// Adds the transactions of `batch`, in their order: all of them, or, where one of their
    /// hashes is in the store or occurs twice in the batch, none.
    pub fn batch_insert(batch: &Vec<Self>, connection: &mut Store) -> (r: Result<usize, StoreError>)
        ensures
            match r {
                Ok(n) => {
                    &&& n == batch@.len()
                    &&& distinct_hashes(old(connection)@.transactions + rows_of(batch@))
                    &&& final(connection)@ == (StoreView {
                        transactions: old(connection)@.transactions + rows_of(batch@),
                        ..old(connection)@
                    })
                },
                Err(e) => {
                    &&& e == StoreError::ConstraintViolation
                    &&& !distinct_hashes(old(connection)@.transactions + rows_of(batch@))
                    &&& final(connection)@ == old(connection)@
                },
            },
            distinct_hashes(final(connection)@.transactions),
    {
        let added: bool = connection.transactions.extend(batch);
        proof {
            use_type_invariant(&connection.transactions);
            connection.transactions.lemma_hashes_distinct();
        }
        if added {
            Ok(batch.len())
        } else {
            Err(StoreError::ConstraintViolation)
        }
    }

    /// The receipt of the transaction whose hash is `queried_hash`, byte for byte, with the
    /// hash and the level of its block.
    pub fn select_receipt(connection: &Store, queried_hash: &Vec<u8>) -> (r: Result<
        (Vec<u8>, i32, i32, Vec<u8>, Vec<u8>, Option<Vec<u8>>, Vec<u8>),
        StoreError,
    >)
        ensures
            match r {
                Ok(receipt) => match with_hash(connection@.transactions, queried_hash@) {
                    Some(row) => row.hash == queried_hash@ && detail_view(receipt)
                        == receipt_detail(row),
                    None => false,
                },
                Err(e) => e == StoreError::NotFound && !holds_hash(
                    connection@.transactions,
                    queried_hash@,
                ),
            },
            distinct_hashes(connection@.transactions),
    {
        proof {
            use_type_invariant(&connection.transactions);
            connection.transactions.lemma_hashes_distinct();
        }
        match connection.transactions.position(queried_hash) {
            Some(i) => {
                let t = connection.transactions.row_at(i);
                Ok(
                    (
                        copy_bytes(&t.block_hash),
                        t.block_number,
                        t.index_,
                        copy_bytes(&t.hash),
                        copy_bytes(&t.from_),
                        copy_optional_bytes(&t.to_),
                        copy_bytes(&t.receipt_fields),
                    ),
                )
            },
            None => Err(StoreError::NotFound),
        }
    }

    /// The receipts of the transactions of the block at level `queried_block_number`, in the
    /// order in which the transactions came.
    pub fn select_receipts_from_block_number(
        connection: &Store,
        queried_block_number: i32,
    ) -> (r: Result<Vec<(Vec<u8>, i32, Vec<u8>, Vec<u8>, Option<Vec<u8>>, Vec<u8>)>, StoreError>)
        ensures
            r is Ok,
            receipt_views(r->Ok_0@) == receipts_in_block(
                connection@.transactions,
                queried_block_number as int,
            ),
    {
        let table = &connection.transactions;
        let ghost all = table@;
        let ghost test = in_block(queried_block_number as int);
        let mut list: Vec<(Vec<u8>, i32, Vec<u8>, Vec<u8>, Option<Vec<u8>>, Vec<u8>)> = Vec::new();
        let mut i: usize = 0;
        proof {
            assert(all.take(0).filter(test) =~= Seq::<TransactionRow>::empty()) by {
                reveal(Seq::filter);
            }
            assert(receipt_views(list@) =~= all.take(0).filter(test).map_values(
                |row: TransactionRow| receipt_of(row),
            ));
        }
        while i < table.len()
            invariant
                i <= all.len(),
                all == table@,
                test == in_block(queried_block_number as int),
                receipt_views(list@) == all.take(i as int).filter(test).map_values(
                    |row: TransactionRow| receipt_of(row),
                ),
            decreases all.len() - i,
        {
            proof {
                lemma_filter_step(all, test, i as int);
            }
            let t = table.row_at(i);
            if t.block_number == queried_block_number {
                let ghost prev = list@;
                list.push(
                    (
                        copy_bytes(&t.block_hash),
                        t.index_,
                        copy_bytes(&t.hash),
                        copy_bytes(&t.from_),
                        copy_optional_bytes(&t.to_),
                        copy_bytes(&t.receipt_fields),
                    ),
                );
                assert(receipt_views(list@) =~= receipt_views(prev).push(receipt_of(all[i as int])));
                assert(all.take(i + 1).filter(test).map_values(
                    |row: TransactionRow| receipt_of(row),
                ) =~= all.take(i as int).filter(test).map_values(
                    |row: TransactionRow| receipt_of(row),
                ).push(receipt_of(all[i as int])));
            }
            i += 1;
        }
        assert(all.take(i as int) =~= all);
        Ok(list)
    }

    /// The object of the transaction whose hash is `queried_hash`, byte for byte, with the
    /// hash and the level of its block.
    pub fn select_object(connection: &Store, queried_hash: &Vec<u8>) -> (r: Result<
        (Vec<u8>, i32, i32, Vec<u8>, Vec<u8>, Option<Vec<u8>>, Vec<u8>),
        StoreError,
    >)
        ensures
            match r {
                Ok(object) => match with_hash(connection@.transactions, queried_hash@) {
                    Some(row) => row.hash == queried_hash@ && detail_view(object)
                        == object_detail(row),
                    None => false,
                },
                Err(e) => e == StoreError::NotFound && !holds_hash(
                    connection@.transactions,
                    queried_hash@,
                ),
            },
            distinct_hashes(connection@.transactions),
    {
        proof {
            use_type_invariant(&connection.transactions);
            connection.transactions.lemma_hashes_distinct();
        }
        match connection.transactions.position(queried_hash) {
            Some(i) => {
                let t = connection.transactions.row_at(i);
                Ok(
                    (
                        copy_bytes(&t.block_hash),
                        t.block_number,
                        t.index_,
                        copy_bytes(&t.hash),
                        copy_bytes(&t.from_),
                        copy_optional_bytes(&t.to_),
                        copy_bytes(&t.object_fields),
                    ),
                )
            },
            None => Err(StoreError::NotFound),
        }
    }

    /// The objects of the transactions of the block at level `queried_block_number`, in the
    /// order in which the transactions came.
    pub fn select_objects_from_block_number(
        connection: &Store,
        queried_block_number: i32,
    ) -> (r: Result<Vec<(i32, Vec<u8>, Vec<u8>, Option<Vec<u8>>, Vec<u8>)>, StoreError>)
        ensures
            r is Ok,
            object_views(r->Ok_0@) == objects_in_block(
                connection@.transactions,
                queried_block_number as int,
            ),
    {
        let table = &connection.transactions;
        let ghost all = table@;
        let ghost test = in_block(queried_block_number as int);
        let mut list: Vec<(i32, Vec<u8>, Vec<u8>, Option<Vec<u8>>, Vec<u8>)> = Vec::new();
        let mut i: usize = 0;
        proof {
            assert(all.take(0).filter(test) =~= Seq::<TransactionRow>::empty()) by {
                reveal(Seq::filter);
            }
            assert(object_views(list@) =~= all.take(0).filter(test).map_values(
                |row: TransactionRow| object_of(row),
            ));
        }
        while i < table.len()
            invariant
                i <= all.len(),
                all == table@,
                test == in_block(queried_block_number as int),
                object_views(list@) == all.take(i as int).filter(test).map_values(
                    |row: TransactionRow| object_of(row),
                ),
            decreases all.len() - i,
        {
            proof {
                lemma_filter_step(all, test, i as int);
            }
            let t = table.row_at(i);
            if t.block_number == queried_block_number {
                let ghost prev = list@;
                list.push(
                    (
                        t.index_,
                        copy_bytes(&t.hash),
                        copy_bytes(&t.from_),
                        copy_optional_bytes(&t.to_),
                        copy_bytes(&t.object_fields),
                    ),
                );
                assert(object_views(list@) =~= object_views(prev).push(object_of(all[i as int])));
                assert(all.take(i + 1).filter(test).map_values(
                    |row: TransactionRow| object_of(row),
                ) =~= all.take(i as int).filter(test).map_values(
                    |row: TransactionRow| object_of(row),
                ).push(object_of(all[i as int])));
            }
            i += 1;
        }
        assert(all.take(i as int) =~= all);
        Ok(list)
    }

    /// Removes the transactions of the blocks strictly above level `queried_block_number`.
    /// Returns how many they were.
    pub fn clear_after(connection: &mut Store, queried_block_number: i32) -> (r: Result<
        usize,
        StoreError,
    >)
        ensures
            r is Ok,
            r->Ok_0 == old(connection)@.transactions.filter(
                above(queried_block_number as int),
            ).len(),
            final(connection)@ == (StoreView {
                transactions: old(connection)@.transactions.filter(
                    not_above(queried_block_number as int),
                ),
                ..old(connection)@
            }),
            distinct_hashes(final(connection)@.transactions),
    {
        let removed: usize = connection.transactions.clear_after(queried_block_number);
        proof {
            use_type_invariant(&connection.transactions);
            connection.transactions.lemma_hashes_distinct();
        }
        Ok(removed)
    }

    /// Removes the transactions of the blocks strictly below level `queried_block_number`.
    /// Returns how many they were.
    pub fn clear_before(connection: &mut Store, queried_block_number: i32) -> (r: Result<
        usize,
        StoreError,
    >)
        ensures
            r is Ok,
            r->Ok_0 == old(connection)@.transactions.filter(
                below(queried_block_number as int),
            ).len(),
            final(connection)@ == (StoreView {
                transactions: old(connection)@.transactions.filter(
                    not_below(queried_block_number as int),
                ),
                ..old(connection)@
            }),
            distinct_hashes(final(connection)@.transactions),
    {
        let removed: usize = connection.transactions.clear_before(queried_block_number);
        proof {
            use_type_invariant(&connection.transactions);
            connection.transactions.lemma_hashes_distinct();
        }
        Ok(removed)
    }
}

} // verus!
