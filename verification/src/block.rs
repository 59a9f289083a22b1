use vstd::prelude::*;
use crate::bytes::copy_bytes;
use crate::error::StoreError;
use crate::hash_index::{HashIndex, with_levels_between};
use crate::level_map::LevelMap;
use crate::model::{base_of, levels_above, levels_below, top_of, without_above, without_below};
use crate::store::{Store, StoreView};

verus! {

/// What the store holds of one level's block.
pub struct BlockRow {
    pub hash: Seq<u8>,
    pub block: Seq<u8>,
}

/// A block as the table keeps it, under its level.
pub struct StoredBlock {
    pub hash: Vec<u8>,
    pub block: Vec<u8>,
}

impl View for StoredBlock {
    type V = BlockRow;

    open spec fn view(&self) -> BlockRow {
        BlockRow { hash: self.hash@, block: self.block@ }
    }
}

/// Some level of `m` holds a block with this hash.
pub open spec fn has_hash(m: Map<int, BlockRow>, hash: Seq<u8>) -> bool {
    exists|l: int| m.contains_key(l) && (#[trigger] m[l]).hash == hash
}

/// No two levels of `m` hold blocks with the same hash.
pub open spec fn hash_injective(m: Map<int, BlockRow>) -> bool {
    forall|a: int, b: int|
        m.contains_key(a) && m.contains_key(b) && (#[trigger] m[a]).hash == (#[trigger] m[b]).hash
            ==> a == b
}

/// The level of `m` whose block has this hash, if there is one.
pub open spec fn level_of_hash(m: Map<int, BlockRow>, hash: Seq<u8>) -> Option<int> {
    if has_hash(m, hash) {
        Some(choose|l: int| m.contains_key(l) && (#[trigger] m[l]).hash == hash)
    } else {
        None
    }
}

/// Where hashes are not shared, the level that holds a hash is the only one.
pub proof fn lemma_level_of_hash(m: Map<int, BlockRow>, level: int)
    requires
        hash_injective(m),
        m.contains_key(level),
    ensures
        level_of_hash(m, m[level].hash) == Some(level),
{
    let hash = m[level].hash;
    assert(has_hash(m, hash));
    let l = choose|l: int| m.contains_key(l) && (#[trigger] m[l]).hash == hash;
    assert(l == level);
}

/// The index holds, for each block, its level under its hash, and nothing else.
pub open spec fn indexed(rows: Map<int, BlockRow>, index: Map<Seq<u8>, int>) -> bool {
    &&& forall|l: int|
        rows.contains_key(l) ==> index.contains_key((#[trigger] rows[l]).hash)
            && index[rows[l].hash] == l
    &&& forall|h: Seq<u8>|
        index.contains_key(h) ==> rows.contains_key(#[trigger] index[h]) && rows[index[h]].hash
            == h
}

/// With an index, a hash is in the table exactly where it is in the index, and hashes are not
/// shared.
pub proof fn lemma_indexed(rows: Map<int, BlockRow>, index: Map<Seq<u8>, int>)
    requires
        indexed(rows, index),
    ensures
        hash_injective(rows),
        forall|h: Seq<u8>| has_hash(rows, h) <==> index.contains_key(h),
        forall|h: Seq<u8>| index.contains_key(h) ==> level_of_hash(rows, h) == Some(index[h]),
{
    assert forall|a: int, b: int|
        rows.contains_key(a) && rows.contains_key(b) && (#[trigger] rows[a]).hash == (
        #[trigger] rows[b]).hash implies a == b by {
        assert(index[rows[a].hash] == a);
        assert(index[rows[b].hash] == b);
    }
    assert forall|h: Seq<u8>| has_hash(rows, h) <==> index.contains_key(h) by {
        if has_hash(rows, h) {
            let l = choose|l: int| rows.contains_key(l) && (#[trigger] rows[l]).hash == h;
            assert(index.contains_key(rows[l].hash));
        }
        if index.contains_key(h) {
            assert(rows.contains_key(index[h]) && rows[index[h]].hash == h);
        }
    }
    assert forall|h: Seq<u8>| index.contains_key(h) implies level_of_hash(rows, h) == Some(
        index[h],
    ) by {
        assert(rows.contains_key(index[h]) && rows[index[h]].hash == h);
        lemma_level_of_hash(rows, index[h]);
    }
}

/// Dropping the levels outside a range from the rows and from the index alike leaves the index
/// matching the rows.
pub proof fn lemma_indexed_range(
    rows: Map<int, BlockRow>,
    index: Map<Seq<u8>, int>,
    lo: int,
    hi: int,
)
    requires
        indexed(rows, index),
    ensures
        indexed(
            rows.restrict(Set::new(|k: int| lo <= k <= hi)),
            with_levels_between(index, lo, hi),
        ),
{
    let kept_rows = rows.restrict(Set::new(|k: int| lo <= k <= hi));
    let kept_index = with_levels_between(index, lo, hi);
    assert forall|l: int| kept_rows.contains_key(l) implies kept_index.contains_key(
        (#[trigger] kept_rows[l]).hash,
    ) && kept_index[kept_rows[l].hash] == l by {
        assert(index.contains_key(rows[l].hash) && index[rows[l].hash] == l);
    }
    assert forall|h: Seq<u8>| kept_index.contains_key(h) implies kept_rows.contains_key(
        #[trigger] kept_index[h],
    ) && kept_rows[kept_index[h]].hash == h by {
        assert(rows.contains_key(index[h]) && rows[index[h]].hash == h);
    }
}

/// The two halves of a block table.
pub struct BlockParts {
    /// The blocks, by level.
    pub rows: LevelMap<StoredBlock>,
    /// The level of each block, by its hash.
    pub by_hash: HashIndex,
}

/// The blocks of a chain: one per level, no hash shared by two, found by level and by hash
/// alike by bisection.
pub struct BlockTable {
    parts: BlockParts,
}

impl View for BlockTable {
    type V = Map<int, BlockRow>;

    closed spec fn view(&self) -> Map<int, BlockRow> {
        self.parts.rows@
    }
}

impl BlockTable {
    /// The representation invariant: the index by hash matches the rows.
    #[verifier::type_invariant]
    pub closed spec fn wf(&self) -> bool {
        indexed(self.parts.rows@, self.parts.by_hash@)
    }

    /// In a table that holds its invariant no hash is shared.
    pub proof fn lemma_hashes_distinct(&self)
        requires
            self.wf(),
        ensures
            hash_injective(self@),
    {
        lemma_indexed(self.parts.rows@, self.parts.by_hash@);
    }

    /// A table without blocks.
    pub fn new() -> (table: Self)
        ensures
            table@ == Map::<int, BlockRow>::empty(),
    {
        BlockTable { parts: BlockParts { rows: LevelMap::new(), by_hash: HashIndex::new() } }
    }

    /// Adds a block unless its level or its hash is taken. Returns whether it was added.
    pub fn insert(&mut self, level: i32, hash: Vec<u8>, block: Vec<u8>) -> (added: bool)
        ensures
            added == (!old(self)@.contains_key(level as int) && !has_hash(old(self)@, hash@)),
            added ==> final(self)@ == old(self)@.insert(
                level as int,
                BlockRow { hash: hash@, block: block@ },
            ),
            !added ==> final(self)@ == old(self)@,
    {
        proof {
            use_type_invariant(&*self);
            lemma_indexed(self.parts.rows@, self.parts.by_hash@);
        }
        if self.parts.rows.contains(level) || self.parts.by_hash.get(&hash).is_some() {
            return false;
        }
        let mut parts = BlockParts { rows: LevelMap::new(), by_hash: HashIndex::new() };
        core::mem::swap(&mut self.parts, &mut parts);
        let key: Vec<u8> = copy_bytes(&hash);
        let indexed_now: bool = parts.by_hash.insert_new(key, level);
        let added: bool = parts.rows.insert_new(level, StoredBlock { hash, block });
        assert(indexed_now && added);
        self.parts = parts;
        true
    }

    /// The blocks, by level, to go through them one by one.
    pub fn rows(&self) -> (rows: &LevelMap<StoredBlock>)
        ensures
            rows@ == self@,
            rows.wf(),
    {
        proof {
            use_type_invariant(&self.parts.rows);
        }
        &self.parts.rows
    }

    /// The block at `level`.
    pub fn get(&self, level: i32) -> (found: Option<&StoredBlock>)
        ensures
            match found {
                Some(stored) => self@.contains_key(level as int) && stored@ == self@[level as int],
                None => !self@.contains_key(level as int),
            },
    {
        self.parts.rows.get(level)
    }

    /// The level of the block with this hash.
    pub fn level_of(&self, hash: &Vec<u8>) -> (found: Option<i32>)
        ensures
            match found {
                Some(level) => level_of_hash(self@, hash@) == Some(level as int)
                    && self@.contains_key(level as int) && self@[level as int].hash == hash@,
                None => !has_hash(self@, hash@),
            },
    {
        proof {
            use_type_invariant(self);
            lemma_indexed(self.parts.rows@, self.parts.by_hash@);
        }
        self.parts.by_hash.get(hash)
    }

    /// The greatest level that has a block.
    pub fn last_key(&self) -> (top: Option<i32>)
        ensures
            match top {
                Some(k) => top_of(self@) == Some(k as int),
                None => top_of(self@) is None && self@ == Map::<int, BlockRow>::empty(),
            },
    {
        self.parts.rows.last_key()
    }

    /// The least level that has a block.
    pub fn first_key(&self) -> (base: Option<i32>)
        ensures
            match base {
                Some(k) => base_of(self@) == Some(k as int),
                None => base_of(self@) is None && self@ == Map::<int, BlockRow>::empty(),
            },
    {
        self.parts.rows.first_key()
    }

    /// The number of blocks.
    pub fn count(&self) -> (n: i64)
        ensures
            n == self@.dom().len(),
    {
        self.parts.rows.count()
    }

    /// Removes the blocks strictly above `level`. Returns how many they were.
    pub fn clear_after(&mut self, level: i32) -> (removed: usize)
        ensures
            final(self)@ == without_above(old(self)@, level as int),
            removed == levels_above(old(self)@, level as int).len(),
    {
        proof {
            use_type_invariant(&*self);
            use_type_invariant(&self.parts.rows);
            self.parts.rows.lemma_positions();
            lemma_indexed_range(
                self.parts.rows@,
                self.parts.by_hash@,
                i32::MIN as int,
                level as int,
            );
            assert(self.parts.rows@.restrict(Set::new(|k: int| i32::MIN <= k <= level))
                =~= without_above(self.parts.rows@, level as int));
        }
        let mut parts = BlockParts { rows: LevelMap::new(), by_hash: HashIndex::new() };
        core::mem::swap(&mut self.parts, &mut parts);
        let removed: usize = parts.rows.clear_after(level);
        parts.by_hash.retain_levels(i32::MIN, level);
        self.parts = parts;
        removed
    }

    /// Removes the blocks strictly below `level`. Returns how many they were.
    pub fn clear_before(&mut self, level: i32) -> (removed: usize)
        ensures
            final(self)@ == without_below(old(self)@, level as int),
            removed == levels_below(old(self)@, level as int).len(),
    {
        proof {
            use_type_invariant(&*self);
            use_type_invariant(&self.parts.rows);
            self.parts.rows.lemma_positions();
            lemma_indexed_range(
                self.parts.rows@,
                self.parts.by_hash@,
                level as int,
                i32::MAX as int,
            );
            assert(self.parts.rows@.restrict(Set::new(|k: int| level <= k <= i32::MAX))
                =~= without_below(self.parts.rows@, level as int));
        }
        let mut parts = BlockParts { rows: LevelMap::new(), by_hash: HashIndex::new() };
        core::mem::swap(&mut self.parts, &mut parts);
        let removed: usize = parts.rows.clear_before(level);
        parts.by_hash.retain_levels(level, i32::MAX);
        self.parts = parts;
        removed
    }
}

/// The block of level `level`: its hash and its serialized body.
#[derive(Debug)]
pub struct Block {
    pub level: i32,
    pub hash: Vec<u8>,
    pub block: Vec<u8>,
}

impl Block {
    /// The row that this block becomes in the table.
    pub open spec fn row(&self) -> BlockRow {
        BlockRow { hash: self.hash@, block: self.block@ }
    }

    /// Adds this block at its level. Where the level has a block, or another level has a block
    /// with this hash, nothing changes and the call fails.
    pub fn insert(self, connection: &mut Store) -> (r: Result<usize, StoreError>)
        ensures
            match r {
                Ok(n) => {
                    &&& n == 1
                    &&& !old(connection)@.blocks.contains_key(self.level as int)
                    &&& !has_hash(old(connection)@.blocks, self.hash@)
                    &&& final(connection)@ == (StoreView {
                        blocks: old(connection)@.blocks.insert(self.level as int, self.row()),
                        ..old(connection)@
                    })
                },
                Err(e) => {
                    &&& e == StoreError::ConstraintViolation
                    &&& old(connection)@.blocks.contains_key(self.level as int) || has_hash(
                        old(connection)@.blocks,
                        self.hash@,
                    )
                    &&& final(connection)@ == old(connection)@
                },
            },
            hash_injective(final(connection)@.blocks),
    {
        let added: bool = connection.blocks.insert(self.level, self.hash, self.block);
        proof {
            use_type_invariant(&connection.blocks);
            connection.blocks.lemma_hashes_distinct();
        }
        if added {
            Ok(1)
        } else {
            Err(StoreError::ConstraintViolation)
        }
    }

    /// The body of the block at `queried_level`.
    pub fn select_with_level(connection: &Store, queried_level: i32) -> (r: Result<
        Vec<u8>,
        StoreError,
    >)
        ensures
            match r {
                Ok(block) => connection@.blocks.contains_key(queried_level as int) && block@
                    == connection@.blocks[queried_level as int].block,
                Err(e) => e == StoreError::NotFound && !connection@.blocks.contains_key(
                    queried_level as int,
                ),
            },
    {
        match connection.blocks.get(queried_level) {
            Some(stored) => Ok(copy_bytes(&stored.block)),
            None => Err(StoreError::NotFound),
        }
    }

    /// The body of the block whose hash is `queried_hash`, byte for byte.
    pub fn select_with_hash(connection: &Store, queried_hash: &Vec<u8>) -> (r: Result<
        Vec<u8>,
        StoreError,
    >)
        ensures
            match r {
                Ok(block) => match level_of_hash(connection@.blocks, queried_hash@) {
                    Some(level) => connection@.blocks.contains_key(level)
                        && connection@.blocks[level].hash == queried_hash@ && block@
                        == connection@.blocks[level].block,
                    None => false,
                },
                Err(e) => e == StoreError::NotFound && !has_hash(
                    connection@.blocks,
                    queried_hash@,
                ),
            },
            hash_injective(connection@.blocks),
    {
        proof {
            use_type_invariant(&connection.blocks);
            connection.blocks.lemma_hashes_distinct();
        }
        match connection.blocks.level_of(queried_hash) {
            Some(level) => match connection.blocks.get(level) {
                Some(stored) => Ok(copy_bytes(&stored.block)),
                None => Err(StoreError::NotFound),
            },
            None => Err(StoreError::NotFound),
        }
    }

    /// The hash of the block at `queried_level`. No other level has a block with that hash.
    pub fn select_hash_of_number(connection: &Store, queried_level: i32) -> (r: Result<
        Vec<u8>,
        StoreError,
    >)
        ensures
            match r {
                Ok(hash) => {
                    &&& connection@.blocks.contains_key(queried_level as int)
                    &&& hash@ == connection@.blocks[queried_level as int].hash
                    &&& level_of_hash(connection@.blocks, hash@) == Some(queried_level as int)
                },
                Err(e) => e == StoreError::NotFound && !connection@.blocks.contains_key(
                    queried_level as int,
                ),
            },
    {
        proof {
            use_type_invariant(&connection.blocks);
            connection.blocks.lemma_hashes_distinct();
            if connection@.blocks.contains_key(queried_level as int) {
                lemma_level_of_hash(connection@.blocks, queried_level as int);
            }
        }
        match connection.blocks.get(queried_level) {
            Some(stored) => Ok(copy_bytes(&stored.hash)),
            None => Err(StoreError::NotFound),
        }
    }

    /// The level of the block whose hash is `queried_hash`, byte for byte.
    pub fn select_number_of_hash(connection: &Store, queried_hash: &Vec<u8>) -> (r: Result<
        i32,
        StoreError,
    >)
        ensures
            match r {
                Ok(level) => level_of_hash(connection@.blocks, queried_hash@) == Some(
                    level as int,
                ) && connection@.blocks.contains_key(level as int)
                    && connection@.blocks[level as int].hash == queried_hash@,
                Err(e) => e == StoreError::NotFound && !has_hash(
                    connection@.blocks,
                    queried_hash@,
                ),
            },
            hash_injective(connection@.blocks),
    {
        proof {
            use_type_invariant(&connection.blocks);
            connection.blocks.lemma_hashes_distinct();
        }
        match connection.blocks.level_of(queried_hash) {
            Some(level) => Ok(level),
            None => Err(StoreError::NotFound),
        }
    }

    /// Removes the blocks strictly above `queried_level`. Returns how many they were.
    pub fn clear_after(connection: &mut Store, queried_level: i32) -> (r: Result<
        usize,
        StoreError,
    >)
        ensures
            r is Ok,
            r->Ok_0 == levels_above(old(connection)@.blocks, queried_level as int).len(),
            final(connection)@ == (StoreView {
                blocks: without_above(old(connection)@.blocks, queried_level as int),
                ..old(connection)@
            }),
            hash_injective(final(connection)@.blocks),
    {
        let removed: usize = connection.blocks.clear_after(queried_level);
        proof {
            use_type_invariant(&connection.blocks);
            connection.blocks.lemma_hashes_distinct();
        }
        Ok(removed)
    }

    /// Removes the blocks strictly below `queried_level`. Returns how many they were.
    pub fn clear_before(connection: &mut Store, queried_level: i32) -> (r: Result<
        usize,
        StoreError,
    >)
        ensures
            r is Ok,
            r->Ok_0 == levels_below(old(connection)@.blocks, queried_level as int).len(),
            final(connection)@ == (StoreView {
                blocks: without_below(old(connection)@.blocks, queried_level as int),
                ..old(connection)@
            }),
            hash_injective(final(connection)@.blocks),
    {
        let removed: usize = connection.blocks.clear_before(queried_level);
        proof {
            use_type_invariant(&connection.blocks);
            connection.blocks.lemma_hashes_distinct();
        }
        Ok(removed)
    }

    /// The number of blocks.
    pub fn count(connection: &Store) -> (r: Result<i64, StoreError>)
        ensures
            r is Ok,
            r->Ok_0 == connection@.blocks.dom().len(),
    {
        Ok(connection.blocks.count())
    }

    /// The least level that has a block.
    pub fn base_level(connection: &Store) -> (r: Result<i32, StoreError>)
        ensures
            match r {
                Ok(level) => base_of(connection@.blocks) == Some(level as int),
                Err(e) => e == StoreError::NotFound && connection@.blocks == Map::<
                    int,
                    BlockRow,
                >::empty(),
            },
    {
        match connection.blocks.first_key() {
            Some(level) => Ok(level),
            None => Err(StoreError::NotFound),
        }
    }

    /// The greatest level that has a block.
    pub fn top_level(connection: &Store) -> (r: Result<i32, StoreError>)
        ensures
            match r {
                Ok(level) => top_of(connection@.blocks) == Some(level as int),
                Err(e) => e == StoreError::NotFound && connection@.blocks == Map::<
                    int,
                    BlockRow,
                >::empty(),
            },
    {
        match connection.blocks.last_key() {
            Some(level) => Ok(level),
            None => Err(StoreError::NotFound),
        }
    }
}

} // verus!
