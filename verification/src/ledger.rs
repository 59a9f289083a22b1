use vstd::prelude::*;
use crate::block::{BlockRow, has_hash, hash_injective};
use crate::blueprint::{BlueprintRow, StoredBlueprint};
use crate::error::StoreError;
use crate::metadata::Metadata;
use crate::model::{levels_above, levels_below, without_above, without_below};
use crate::pending_confirmation::PendingConfirmation;
use crate::rows::keys_where;
use crate::store::{Store, StoreView};
use crate::transaction::{
    Transaction, TransactionRow, above, below, distinct_hashes, not_above, not_below, rows_of,
};
use crate::upgrade::{is_applied_above, nullify_after, with_apply_nullified};

verus! {

/// What one level brings: its blueprint, its block, the transactions of the block and the
/// context hash after it.
pub struct LevelView {
    pub level: int,
    pub blueprint: BlueprintRow,
    pub block: BlockRow,
    pub transactions: Seq<TransactionRow>,
    pub context_hash: Seq<u8>,
}

/// The level cannot be applied: it has a blueprint or a block already, its block's hash is
/// that of another block, or one of its transactions' hashes is in the store or occurs twice.
pub open spec fn is_taken(s: StoreView, l: LevelView) -> bool {
    ||| s.blueprints.contains_key(l.level)
    ||| s.blocks.contains_key(l.level)
    ||| has_hash(s.blocks, l.block.hash)
    ||| !distinct_hashes(s.transactions + l.transactions)
}

/// The store with one more level: its blueprint, its block and its transactions added, its
/// context hash put in place of the one that the level had, if it had one.
pub open spec fn with_level(s: StoreView, l: LevelView) -> StoreView {
    StoreView {
        blueprints: s.blueprints.insert(l.level, l.blueprint),
        blocks: s.blocks.insert(l.level, l.block),
        transactions: s.transactions + l.transactions,
        context_hashes: s.context_hashes.insert(l.level, l.context_hash),
        ..s
    }
}

/// The store taken back to `level`: without the blueprints, blocks, transactions and context
/// hashes above it, with the upgrades applied above it not applied again, and without the
/// upgrades injected above it.
pub open spec fn rolled_back(s: StoreView, level: int) -> StoreView {
    StoreView {
        blueprints: without_above(s.blueprints, level),
        blocks: without_above(s.blocks, level),
        transactions: s.transactions.filter(not_above(level)),
        context_hashes: without_above(s.context_hashes, level),
        kernel_upgrades: without_above(with_apply_nullified(s.kernel_upgrades, level), level),
        sequencer_upgrades: without_above(with_apply_nullified(s.sequencer_upgrades, level), level),
        ..s
    }
}

/// The store without what lies below `level`: blueprints, blocks, transactions, context
/// hashes, and the upgrades injected below it.
pub open spec fn pruned(s: StoreView, level: int) -> StoreView {
    StoreView {
        blueprints: without_below(s.blueprints, level),
        blocks: without_below(s.blocks, level),
        transactions: s.transactions.filter(not_below(level)),
        context_hashes: without_below(s.context_hashes, level),
        kernel_upgrades: without_below(s.kernel_upgrades, level),
        sequencer_upgrades: without_below(s.sequencer_upgrades, level),
        ..s
    }
}

/// How many rows one pass over the tables removed, table by table, and how many upgrades it
/// marked as not applied.
#[derive(Clone, Copy, Debug, PartialEq, Eq)]
pub struct Cleared {
    pub blueprints: usize,
    pub blocks: usize,
    pub transactions: usize,
    pub context_hashes: usize,
    pub kernel_upgrades: usize,
    pub sequencer_upgrades: usize,
    pub kernel_upgrades_unapplied: usize,
    pub sequencer_upgrades_unapplied: usize,
}

impl Store {
    /// Installs one level: its blueprint, its block, the transactions of the block and its
    /// context hash, all of them or none. Returns the history mode of the node.
    ///
    /// The marker that awaits confirmation at the level is read first; whether there is one
    /// changes nothing. The call fails, and leaves the store as it was, where the level is
    /// taken (see [`is_taken`]), or else where no history mode is set. Everything that can
    /// fail is looked at before the first table is written, in the order blueprint, block,
    /// transactions, history mode, so that no write has to be taken back.
    pub fn apply_blueprint(
        &mut self,
        level: i32,
        payload: Vec<u8>,
        timestamp: i32,
        block_hash: Vec<u8>,
        block: Vec<u8>,
        transactions: &Vec<Transaction>,
        context_hash: Vec<u8>,
    ) -> (r: Result<String, StoreError>)
        ensures
            ({
                let l = LevelView {
                    level: level as int,
                    blueprint: BlueprintRow { payload: payload@, timestamp: timestamp as int },
                    block: BlockRow { hash: block_hash@, block: block@ },
                    transactions: rows_of(transactions@),
                    context_hash: context_hash@,
                };
                match r {
                    Ok(mode) => {
                        &&& !is_taken(old(self)@, l)
                        &&& old(self)@.metadata.history_mode == Some(mode@)
                        &&& final(self)@ == with_level(old(self)@, l)
                    },
                    Err(e) => {
                        &&& final(self)@ == old(self)@
                        &&& if is_taken(old(self)@, l) {
                            e == StoreError::ConstraintViolation
                        } else {
                            e == StoreError::NotFound && old(self)@.metadata.history_mode is None
                        }
                    },
                }
            }),
            hash_injective(final(self)@.blocks),
            distinct_hashes(final(self)@.transactions),
    {
        proof {
            use_type_invariant(&self.blocks);
            self.blocks.lemma_hashes_distinct();
            use_type_invariant(&self.transactions);
            self.transactions.lemma_hashes_distinct();
        }
        let _ = PendingConfirmation::select_with_level(self, level);
        if self.blueprints.contains(level) {
            return Err(StoreError::ConstraintViolation);
        }
        if self.blocks.get(level).is_some() || self.blocks.level_of(&block_hash).is_some() {
            return Err(StoreError::ConstraintViolation);
        }
        if !self.transactions.accepts(transactions) {
            return Err(StoreError::ConstraintViolation);
        }
        let mode: String = match Metadata::get_history_mode(self) {
            Ok(mode) => mode,
            Err(e) => {
                return Err(e);
            },
        };
        let _ = self.blueprints.insert_new(level, StoredBlueprint { payload, timestamp });
        let _ = self.blocks.insert(level, block_hash, block);
        let _ = self.transactions.extend(transactions);
        let _ = self.context_hashes.insert_or_replace(level, context_hash);
        proof {
            use_type_invariant(&self.blocks);
            self.blocks.lemma_hashes_distinct();
            use_type_invariant(&self.transactions);
            self.transactions.lemma_hashes_distinct();
        }
        Ok(mode)
    }

    /// Takes the store back to `level` in one pass over the tables (see [`rolled_back`]), and
    /// says how many rows left each table.
    pub fn clear_after(&mut self, level: i32) -> (r: Result<Cleared, StoreError>)
        ensures
            r is Ok,
            final(self)@ == rolled_back(old(self)@, level as int),
            ({
                let s = old(self)@;
                let n = r->Ok_0;
                &&& n.blueprints == levels_above(s.blueprints, level as int).len()
                &&& n.blocks == levels_above(s.blocks, level as int).len()
                &&& n.transactions == s.transactions.filter(above(level as int)).len()
                &&& n.context_hashes == levels_above(s.context_hashes, level as int).len()
                &&& n.kernel_upgrades == levels_above(s.kernel_upgrades, level as int).len()
                &&& n.sequencer_upgrades == levels_above(s.sequencer_upgrades, level as int).len()
                &&& n.kernel_upgrades_unapplied == keys_where(
                    s.kernel_upgrades,
                    is_applied_above(level as int),
                ).len()
                &&& n.sequencer_upgrades_unapplied == keys_where(
                    s.sequencer_upgrades,
                    is_applied_above(level as int),
                ).len()
            }),
            hash_injective(final(self)@.blocks),
            distinct_hashes(final(self)@.transactions),
    {
        let blueprints: usize = self.blueprints.clear_after(level);
        let blocks: usize = self.blocks.clear_after(level);
        let context_hashes: usize = self.context_hashes.clear_after(level);
        let transactions: usize = self.transactions.clear_after(level);
        let kernel_upgrades_unapplied: usize = nullify_after(&mut self.kernel_upgrades, level);
        let kernel_upgrades: usize = self.kernel_upgrades.clear_after(level);
        let sequencer_upgrades_unapplied: usize = nullify_after(
            &mut self.sequencer_upgrades,
            level,
        );
        let sequencer_upgrades: usize = self.sequencer_upgrades.clear_after(level);
        proof {
            let s = old(self)@;
            assert(levels_above(with_apply_nullified(s.kernel_upgrades, level as int), level as int)
                =~= levels_above(s.kernel_upgrades, level as int));
            assert(levels_above(
                with_apply_nullified(s.sequencer_upgrades, level as int),
                level as int,
            ) =~= levels_above(s.sequencer_upgrades, level as int));
            use_type_invariant(&self.blocks);
            self.blocks.lemma_hashes_distinct();
            use_type_invariant(&self.transactions);
            self.transactions.lemma_hashes_distinct();
        }
        Ok(
            Cleared {
                blueprints,
                blocks,
                transactions,
                context_hashes,
                kernel_upgrades,
                sequencer_upgrades,
                kernel_upgrades_unapplied,
                sequencer_upgrades_unapplied,
            },
        )
    }

    /// Removes what lies below `level` in one pass over the tables (see [`pruned`]), and says
    /// how many rows left each table. No upgrade changes its state.
    pub fn clear_before(&mut self, level: i32) -> (r: Result<Cleared, StoreError>)
        ensures
            r is Ok,
            final(self)@ == pruned(old(self)@, level as int),
            ({
                let s = old(self)@;
                let n = r->Ok_0;
                &&& n.blueprints == levels_below(s.blueprints, level as int).len()
                &&& n.blocks == levels_below(s.blocks, level as int).len()
                &&& n.transactions == s.transactions.filter(below(level as int)).len()
                &&& n.context_hashes == levels_below(s.context_hashes, level as int).len()
                &&& n.kernel_upgrades == levels_below(s.kernel_upgrades, level as int).len()
                &&& n.sequencer_upgrades == levels_below(s.sequencer_upgrades, level as int).len()
                &&& n.kernel_upgrades_unapplied == 0
                &&& n.sequencer_upgrades_unapplied == 0
            }),
            hash_injective(final(self)@.blocks),
            distinct_hashes(final(self)@.transactions),
    {
        let blueprints: usize = self.blueprints.clear_before(level);
        let blocks: usize = self.blocks.clear_before(level);
        let context_hashes: usize = self.context_hashes.clear_before(level);
        let transactions: usize = self.transactions.clear_before(level);
        let kernel_upgrades: usize = self.kernel_upgrades.clear_before(level);
        let sequencer_upgrades: usize = self.sequencer_upgrades.clear_before(level);
        proof {
            use_type_invariant(&self.blocks);
            self.blocks.lemma_hashes_distinct();
            use_type_invariant(&self.transactions);
            self.transactions.lemma_hashes_distinct();
        }
        Ok(
            Cleared {
                blueprints,
                blocks,
                transactions,
                context_hashes,
                kernel_upgrades,
                sequencer_upgrades,
                kernel_upgrades_unapplied: 0,
                sequencer_upgrades_unapplied: 0,
            },
        )
    }
}

} // verus!
