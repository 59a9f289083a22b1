use vstd::prelude::*;
use crate::error::StoreError;
use crate::rows::{lemma_filter_all, lemma_filter_members, lemma_filter_nothing};
use crate::series::{
    Leveled, lemma_filter_agree, lemma_filter_split, level_between, retain_between, views,
};
use crate::store::{Store, StoreView};

verus! {

/// What the store holds of one chunk.
pub struct IrminChunkRow {
    pub level: int,
    pub timestamp: int,
}

/// A chunk of the context, cut at `level`. A level may have several chunks.
#[derive(Clone, Copy, Debug)]
pub struct IrminChunk {
    pub level: i32,
    pub timestamp: i32,
}

impl View for IrminChunk {
    type V = IrminChunkRow;

    open spec fn view(&self) -> IrminChunkRow {
        IrminChunkRow { level: self.level as int, timestamp: self.timestamp as int }
    }
}

impl Leveled for IrminChunk {
    open spec fn level_of(row: IrminChunkRow) -> int {
        row.level
    }

    fn level(&self) -> (level: i32) {
        self.level
    }

    fn duplicate(&self) -> (copy: Self) {
        IrminChunk { level: self.level, timestamp: self.timestamp }
    }
}

/// No chunk comes before one of a greater level.
pub open spec fn non_increasing(rows: Seq<IrminChunkRow>) -> bool {
    forall|i: int, j: int| 0 <= i < j < rows.len() ==> rows[i].level >= rows[j].level
}

/// The test "is of level `level` or above".
pub open spec fn chunk_not_below(level: int) -> spec_fn(IrminChunkRow) -> bool {
    |row: IrminChunkRow| row.level >= level
}

/// The test "is of level `level` or below".
pub open spec fn chunk_not_above(level: int) -> spec_fn(IrminChunkRow) -> bool {
    |row: IrminChunkRow| row.level <= level
}

/// The test "is of a level strictly above `level`".
pub open spec fn chunk_above(level: int) -> spec_fn(IrminChunkRow) -> bool {
    |row: IrminChunkRow| row.level > level
}

/// The rows with one more: behind the rows of its level or above, before the rows below.
pub open spec fn placed(rows: Seq<IrminChunkRow>, row: IrminChunkRow) -> Seq<IrminChunkRow> {
    rows.insert(rows.filter(chunk_not_below(row.level)).len() as int, row)
}

/// The row that stands `offset` places behind the first; where `offset` is negative, the
/// first.
pub open spec fn nth_row(rows: Seq<IrminChunkRow>, offset: int) -> Option<IrminChunkRow> {
    let at = if offset < 0 { 0 } else { offset };
    if at < rows.len() {
        Some(rows[at])
    } else {
        None
    }
}

/// Where the rows before a place are of a level or above and the others below it, as many
/// rows are of that level or above as stand before the place.
pub proof fn lemma_place(rows: Seq<IrminChunkRow>, level: int, at: int)
    requires
        0 <= at <= rows.len(),
        forall|j: int| 0 <= j < at ==> (#[trigger] rows[j]).level >= level,
        forall|j: int| at <= j < rows.len() ==> (#[trigger] rows[j]).level < level,
    ensures
        rows.filter(chunk_not_below(level)).len() == at,
{
    let test = chunk_not_below(level);
    let front = rows.take(at);
    let back = rows.skip(at);
    assert(rows =~= front + back);
    Seq::filter_distributes_over_add(front, back, test);
    assert forall|j: int| 0 <= j < front.len() implies test(#[trigger] front[j]) by {
        assert(front[j] == rows[j]);
    }
    assert forall|j: int| 0 <= j < back.len() implies !test(#[trigger] back[j]) by {
        assert(back[j] == rows[j + at]);
    }
    lemma_filter_all(front, test);
    lemma_filter_nothing(back, test);
}

/// Rows that pass a test are in the order in which they were.
pub proof fn lemma_filter_non_increasing(
    rows: Seq<IrminChunkRow>,
    test: spec_fn(IrminChunkRow) -> bool,
)
    requires
        non_increasing(rows),
    ensures
        non_increasing(rows.filter(test)),
    decreases rows.len(),
{
    reveal(Seq::filter);
    if rows.len() > 0 {
        let front = rows.drop_last();
        assert(non_increasing(front)) by {
            assert forall|i: int, j: int| 0 <= i < j < front.len() implies front[i].level
                >= front[j].level by {
                assert(front[i] == rows[i] && front[j] == rows[j]);
            }
        }
        lemma_filter_non_increasing(front, test);
        lemma_filter_members(front, test);
        let sub = front.filter(test);
        let out = rows.filter(test);
        assert forall|i: int, j: int| 0 <= i < j < out.len() implies out[i].level
            >= out[j].level by {
            if j < sub.len() {
                assert(out[i] == sub[i] && out[j] == sub[j]);
            } else {
                assert(front.contains(sub[i]));
                let k = choose|k: int| 0 <= k < front.len() && front[k] == sub[i];
                assert(rows[k].level >= rows[rows.len() - 1].level);
            }
        }
    }
}

/// The chunks of a context, the greatest level first; among chunks of one level, the one
/// that came first.
pub struct IrminChunkTable {
    rows: Vec<IrminChunk>,
}

impl View for IrminChunkTable {
    type V = Seq<IrminChunkRow>;

    closed spec fn view(&self) -> Seq<IrminChunkRow> {
        views(self.rows@)
    }
}

impl IrminChunkTable {
    /// The representation invariant: the levels do not increase.
    #[verifier::type_invariant]
    pub closed spec fn wf(&self) -> bool {
        non_increasing(views(self.rows@))
    }

    /// In a table that holds its invariant the levels do not increase.
    pub proof fn lemma_ordered(&self)
        requires
            self.wf(),
        ensures
            non_increasing(self@),
    {
    }

    /// A table without chunks.
    pub fn new() -> (table: Self)
        ensures
            table@ == Seq::<IrminChunkRow>::empty(),
    {
        let table = IrminChunkTable { rows: Vec::new() };
        assert(table@ =~= Seq::<IrminChunkRow>::empty());
        table
    }

    /// Adds a chunk at its place.
    pub fn insert(&mut self, chunk: IrminChunk)
        ensures
            final(self)@ == placed(old(self)@, chunk@),
    {
        proof {
            use_type_invariant(&*self);
        }
        let mut at: usize = 0;
        while at < self.rows.len() && self.rows[at].level >= chunk.level
            invariant
                at <= self.rows@.len(),
                forall|j: int| 0 <= j < at ==> (#[trigger] self@[j]).level >= chunk.level,
            decreases self.rows@.len() - at,
        {
            assert(self@[at as int] == self.rows@[at as int]@);
            at += 1;
        }
        proof {
            assert forall|j: int| at <= j < self@.len() implies (#[trigger] self@[j]).level
                < chunk.level by {
                assert(self@[at as int] == self.rows@[at as int]@);
                if j > at {
                    assert(self@[at as int].level >= self@[j].level);
                }
            }
            lemma_place(self@, chunk.level as int, at as int);
        }
        let mut rows: Vec<IrminChunk> = Vec::new();
        core::mem::swap(&mut self.rows, &mut rows);
        rows.insert(at, chunk);
        proof {
            let next = views(rows@);
            assert(next =~= old(self)@.insert(at as int, chunk@));
            assert forall|i: int, j: int| 0 <= i < j < next.len() implies next[i].level
                >= next[j].level by {
                let before = old(self)@;
                if i < at && j > at {
                    assert(next[i] == before[i] && next[j] == before[j - 1]);
                } else if i == at {
                    assert(next[j] == before[j - 1]);
                } else if j == at {
                    assert(next[i] == before[i]);
                } else if j < at {
                    assert(next[i] == before[i] && next[j] == before[j]);
                } else {
                    assert(next[i] == before[i - 1] && next[j] == before[j - 1]);
                }
            }
        }
        self.rows = rows;
    }

    /// The chunk that stands `offset` places behind the first; where `offset` is negative,
    /// the first.
    pub fn nth(&self, offset: i64) -> (found: Option<IrminChunk>)
        ensures
            match found {
                Some(chunk) => nth_row(self@, offset as int) == Some(chunk@),
                None => nth_row(self@, offset as int) is None,
            },
    {
        let n: usize = self.rows.len();
        if offset < 0 {
            if n > 0 {
                assert(self@[0] == self.rows@[0]@);
                Some(self.rows[0])
            } else {
                None
            }
        } else if (offset as u128) < (n as u128) {
            let at: usize = offset as usize;
            assert(self@[at as int] == self.rows@[at as int]@);
            Some(self.rows[at])
        } else {
            None
        }
    }

    /// Keeps the chunks of the levels from `lo` to `hi`, both included, and removes the
    /// others. Returns how many it removed.
    fn retain_levels(&mut self, lo: i32, hi: i32) -> (removed: usize)
        ensures
            final(self)@ == old(self)@.filter(level_between::<IrminChunk>(lo as int, hi as int)),
            removed == old(self)@.len() - final(self)@.len(),
    {
        proof {
            use_type_invariant(&*self);
            lemma_filter_non_increasing(self@, level_between::<IrminChunk>(lo as int, hi as int));
        }
        let mut rows: Vec<IrminChunk> = Vec::new();
        core::mem::swap(&mut self.rows, &mut rows);
        let removed: usize = retain_between(&mut rows, lo, hi);
        self.rows = rows;
        removed
    }

    /// Removes every chunk. Returns how many they were.
    pub fn clear(&mut self) -> (removed: usize)
        ensures
            final(self)@ == Seq::<IrminChunkRow>::empty(),
            removed == old(self)@.len(),
    {
        let removed: usize = self.rows.len();
        let rows: Vec<IrminChunk> = Vec::new();
        assert(views(rows@) =~= Seq::<IrminChunkRow>::empty());
        self.rows = rows;
        removed
    }

    /// Removes the chunks of the levels strictly above `level`. Returns how many they were.
    pub fn clear_after(&mut self, level: i32) -> (removed: usize)
        ensures
            final(self)@ == old(self)@.filter(chunk_not_above(level as int)),
            removed == old(self)@.filter(chunk_above(level as int)).len(),
    {
        proof {
            lemma_filter_agree(
                self@,
                level_between::<IrminChunk>(i32::MIN as int, level as int),
                chunk_not_above(level as int),
            );
            lemma_filter_split(self@, chunk_not_above(level as int), chunk_above(level as int));
        }
        self.retain_levels(i32::MIN, level)
    }

    /// Removes the chunks of `level` and of the levels below it. Returns how many they were.
    pub fn clear_before_included(&mut self, level: i32) -> (removed: usize)
        ensures
            final(self)@ == old(self)@.filter(chunk_above(level as int)),
            removed == old(self)@.filter(chunk_not_above(level as int)).len(),
    {
        proof {
            lemma_filter_split(self@, chunk_above(level as int), chunk_not_above(level as int));
        }
        if level == i32::MAX {
            proof {
                lemma_filter_nothing(self@, chunk_above(level as int));
            }
            self.clear()
        } else {
            proof {
                lemma_filter_agree(
                    self@,
                    level_between::<IrminChunk>(level + 1, i32::MAX as int),
                    chunk_above(level as int),
                );
            }
            self.retain_levels(level + 1, i32::MAX)
        }
    }
}

impl IrminChunk {
    /// Adds this chunk: behind the chunks of its level or above, before those below.
    pub fn insert(self, connection: &mut Store) -> (r: Result<usize, StoreError>)
        ensures
            r == Ok::<usize, StoreError>(1),
            final(connection)@ == (StoreView {
                irmin_chunks: placed(old(connection)@.irmin_chunks, self@),
                ..old(connection)@
            }),
    {
        connection.irmin_chunks.insert(self);
        Ok(1)
    }

    /// The level and the timestamp of the chunk that stands `offset` places behind the one of
    /// the greatest level; where `offset` is negative, of that one.
    pub fn nth(connection: &Store, offset: i64) -> (r: Result<(i32, i32), StoreError>)
        ensures
            match r {
                Ok((level, timestamp)) => nth_row(connection@.irmin_chunks, offset as int) == Some(
                    IrminChunkRow { level: level as int, timestamp: timestamp as int },
                ),
                Err(e) => e == StoreError::NotFound && nth_row(
                    connection@.irmin_chunks,
                    offset as int,
                ) is None,
            },
    {
        match connection.irmin_chunks.nth(offset) {
            Some(chunk) => Ok((chunk.level, chunk.timestamp)),
            None => Err(StoreError::NotFound),
        }
    }

    /// The level and the timestamp of the chunk of the greatest level; of the one that came
    /// first, where several chunks are of that level.
    pub fn latest(connection: &Store) -> (r: Result<(i32, i32), StoreError>)
        ensures
            match r {
                Ok((level, timestamp)) => {
                    &&& nth_row(connection@.irmin_chunks, 0) == Some(
                        IrminChunkRow { level: level as int, timestamp: timestamp as int },
                    )
                    &&& forall|i: int|
                        0 <= i < connection@.irmin_chunks.len()
                            ==> (#[trigger] connection@.irmin_chunks[i]).level <= level
                },
                Err(e) => e == StoreError::NotFound && connection@.irmin_chunks.len() == 0,
            },
    {
        proof {
            use_type_invariant(&connection.irmin_chunks);
            connection.irmin_chunks.lemma_ordered();
        }
        match connection.irmin_chunks.nth(0) {
            Some(chunk) => Ok((chunk.level, chunk.timestamp)),
            None => Err(StoreError::NotFound),
        }
    }

    /// Removes every chunk. Returns how many they were.
    pub fn clear(connection: &mut Store) -> (r: Result<usize, StoreError>)
        ensures
            r is Ok,
            r->Ok_0 == old(connection)@.irmin_chunks.len(),
            final(connection)@ == (StoreView { irmin_chunks: Seq::empty(), ..old(connection)@ }),
    {
        Ok(connection.irmin_chunks.clear())
    }

    /// Removes the chunks of the levels strictly above `queried_level`. Returns how many they
    /// were.
    pub fn clear_after(connection: &mut Store, queried_level: i32) -> (r: Result<
        usize,
        StoreError,
    >)
        ensures
            r is Ok,
            r->Ok_0 == old(connection)@.irmin_chunks.filter(
                chunk_above(queried_level as int),
            ).len(),
            final(connection)@ == (StoreView {
                irmin_chunks: old(connection)@.irmin_chunks.filter(
                    chunk_not_above(queried_level as int),
                ),
                ..old(connection)@
            }),
    {
        Ok(connection.irmin_chunks.clear_after(queried_level))
    }

    /// Removes the chunks of `queried_level` and of the levels below it. Returns how many
    /// they were.
    pub fn clear_before_included(connection: &mut Store, queried_level: i32) -> (r: Result<
        usize,
        StoreError,
    >)
        ensures
            r is Ok,
            r->Ok_0 == old(connection)@.irmin_chunks.filter(
                chunk_not_above(queried_level as int),
            ).len(),
            final(connection)@ == (StoreView {
                irmin_chunks: old(connection)@.irmin_chunks.filter(
                    chunk_above(queried_level as int),
                ),
                ..old(connection)@
            }),
    {
        Ok(connection.irmin_chunks.clear_before_included(queried_level))
    }
}

} // verus!
