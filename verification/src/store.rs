use vstd::prelude::*;
use crate::block::{BlockRow, BlockTable};
use crate::blueprint::{BlueprintRow, StoredBlueprint};
use crate::delayed_transaction::{DelayedTransaction, DelayedTransactionRow};
use crate::irmin_chunk::{IrminChunkRow, IrminChunkTable};
use crate::kernel_upgrade::{KernelPayload, KernelUpgradeRow};
use crate::l1l2_finalized_level::{SpanRow, StoredSpan};
use crate::level_map::LevelMap;
use crate::metadata::{MetadataTable, MetadataView};
use crate::migration::StoredMigration;
use crate::sequencer_upgrade::{SequencerPayload, SequencerUpgradeRow};
use crate::series::views;
use crate::upgrade::StoredUpgrade;
use crate::transaction::{TransactionRow, TransactionTable};

verus! {

/// What a [`Store`] holds, table by table.
pub struct StoreView {
    /// The blueprint of each level.
    pub blueprints: Map<int, BlueprintRow>,
    /// The block of each level.
    pub blocks: Map<int, BlockRow>,
    /// The transactions of all blocks, in the order in which they came.
    pub transactions: Seq<TransactionRow>,
    /// The context hash of each level.
    pub context_hashes: Map<int, Seq<u8>>,
    /// The block hash awaiting confirmation at each level.
    pub pending_confirmations: Map<int, Seq<u8>>,
    /// The kernel upgrades, by the level before which each was injected.
    pub kernel_upgrades: Map<int, KernelUpgradeRow>,
    /// The sequencer upgrades, by the level before which each was injected.
    pub sequencer_upgrades: Map<int, SequencerUpgradeRow>,
    /// The settings of the node.
    pub metadata: MetadataView,
    /// The delayed transactions, in the order in which they came.
    pub delayed_transactions: Seq<DelayedTransactionRow>,
    /// For each level of the second layer that has one, the level of the first layer at which
    /// it was reached.
    pub l1_l2_levels_relationships: Map<int, i32>,
    /// For each final level of the first layer, the levels of the second layer that it
    /// finalized.
    pub l1_l2_finalized_levels: Map<int, SpanRow>,
    /// The chunks of the context, the greatest level first.
    pub irmin_chunks: Seq<IrminChunkRow>,
    /// The storage mode of the blocks, where one is set.
    pub block_storage_mode: Option<i32>,
    /// The name of each migration that the store has gone through, by its number.
    pub migrations: Map<int, Option<Seq<char>>>,
}

impl StoreView {
    /// The store without any row.
    pub open spec fn empty() -> StoreView {
        StoreView {
            blueprints: Map::empty(),
            blocks: Map::empty(),
            transactions: Seq::empty(),
            context_hashes: Map::empty(),
            pending_confirmations: Map::empty(),
            kernel_upgrades: Map::empty(),
            sequencer_upgrades: Map::empty(),
            metadata: MetadataView { smart_rollup_address: None, history_mode: None },
            delayed_transactions: Seq::empty(),
            l1_l2_levels_relationships: Map::empty(),
            l1_l2_finalized_levels: Map::empty(),
            irmin_chunks: Seq::empty(),
            block_storage_mode: None,
            migrations: Map::empty(),
        }
    }
}

/// The state of a node, one table per kind of record. Every operation of the library takes
/// the store that it reads or changes.
pub struct Store {
    pub blueprints: LevelMap<StoredBlueprint>,
    pub blocks: BlockTable,
    pub transactions: TransactionTable,
    pub context_hashes: LevelMap<Vec<u8>>,
    pub pending_confirmations: LevelMap<Vec<u8>>,
    pub kernel_upgrades: LevelMap<StoredUpgrade<KernelPayload>>,
    pub sequencer_upgrades: LevelMap<StoredUpgrade<SequencerPayload>>,
    pub metadata: MetadataTable,
    pub delayed_transactions: Vec<DelayedTransaction>,
    pub l1_l2_levels_relationships: LevelMap<i32>,
    pub l1_l2_finalized_levels: LevelMap<StoredSpan>,
    pub irmin_chunks: IrminChunkTable,
    pub block_storage_mode: Option<i32>,
    pub migrations: LevelMap<StoredMigration>,
}

impl View for Store {
    type V = StoreView;

    open spec fn view(&self) -> StoreView {
        StoreView {
            blueprints: self.blueprints@,
            blocks: self.blocks@,
            transactions: self.transactions@,
            context_hashes: self.context_hashes@,
            pending_confirmations: self.pending_confirmations@,
            kernel_upgrades: self.kernel_upgrades@,
            sequencer_upgrades: self.sequencer_upgrades@,
            metadata: self.metadata@,
            delayed_transactions: views(self.delayed_transactions@),
            l1_l2_levels_relationships: self.l1_l2_levels_relationships@,
            l1_l2_finalized_levels: self.l1_l2_finalized_levels@,
            irmin_chunks: self.irmin_chunks@,
            block_storage_mode: self.block_storage_mode,
            migrations: self.migrations@,
        }
    }
}

impl Store {
    /// A store without any row.
    pub fn new() -> (store: Store)
        ensures
            store@ == StoreView::empty(),
    {
        let store = Store {
            blueprints: LevelMap::new(),
            blocks: BlockTable::new(),
            transactions: TransactionTable::new(),
            context_hashes: LevelMap::new(),
            pending_confirmations: LevelMap::new(),
            kernel_upgrades: LevelMap::new(),
            sequencer_upgrades: LevelMap::new(),
            metadata: MetadataTable::new(),
            delayed_transactions: Vec::new(),
            l1_l2_levels_relationships: LevelMap::new(),
            l1_l2_finalized_levels: LevelMap::new(),
            irmin_chunks: IrminChunkTable::new(),
            block_storage_mode: None,
            migrations: LevelMap::new(),
        };
        assert(store@.delayed_transactions =~= Seq::<DelayedTransactionRow>::empty());
        store
    }
}

} // verus!
