use evmnodetooling::block::Block;
use evmnodetooling::blueprint::Blueprint;
use evmnodetooling::context_hash::ContextHash;
use evmnodetooling::error::StoreError;
use evmnodetooling::kernel_upgrade::KernelUpgrade;
use evmnodetooling::ledger::Cleared;
use evmnodetooling::metadata::Metadata;
use evmnodetooling::pending_confirmation::PendingConfirmation;
use evmnodetooling::sequencer_upgrade::SequencerUpgrade;
use evmnodetooling::store::Store;
use evmnodetooling::transaction::Transaction;

fn transaction(block_number: i32, index: i32, hash: &[u8]) -> Transaction {
    Transaction {
        block_hash: b"aaaa".to_vec(),
        block_number,
        index_: index,
        hash: hash.to_vec(),
        from_: b"from".to_vec(),
        to_: Some(b"to".to_vec()),
        receipt_fields: b"receipt".to_vec(),
        object_fields: b"object".to_vec(),
    }
}

fn store_with_mode() -> Store {
    let mut store = Store::new();
    assert_eq!(Metadata::insert_history_mode(&mut store, "rolling"), Ok(1));
    store
}

fn apply_level(store: &mut Store, level: i32, tag: &str) -> Result<String, StoreError> {
    let transactions = vec![
        transaction(level, 0, format!("{tag}-t1").as_bytes()),
        transaction(level, 1, format!("{tag}-t2").as_bytes()),
    ];
    store.apply_blueprint(
        level,
        format!("{tag}-payload").into_bytes(),
        1000 + level,
        format!("{tag}-hash").into_bytes(),
        format!("{tag}-body").into_bytes(),
        &transactions,
        format!("{tag}-ctx").into_bytes(),
    )
}

#[test]
fn scenario_one_level_cleared_table_by_table() {
    let mut store = Store::new();
    let blueprint = Blueprint { id: 100, payload: b"abc".to_vec(), timestamp: 1000 };
    assert_eq!(blueprint.insert(&mut store), Ok(1));
    let block = Block { level: 100, hash: b"aaaa".to_vec(), block: b"body".to_vec() };
    assert_eq!(block.insert(&mut store), Ok(1));
    assert_eq!(transaction(100, 0, b"t1").insert(&mut store), Ok(1));
    assert_eq!(transaction(100, 1, b"t2").insert(&mut store), Ok(1));
    let context_hash = ContextHash { id: 100, context_hash: b"ctx".to_vec() };
    assert_eq!(context_hash.insert(&mut store), Ok(1));

    let blueprints = Blueprint::clear_after(&mut store, 99).unwrap();
    let blocks = Block::clear_after(&mut store, 99).unwrap();
    let transactions = Transaction::clear_after(&mut store, 99).unwrap();
    let context_hashes = ContextHash::clear_after(&mut store, 99).unwrap();
    assert_eq!(blueprints, 1);
    assert_eq!(blocks, 1);
    assert_eq!(transactions, 2);
    assert_eq!(context_hashes, 1);
    assert_eq!(blueprints + blocks + transactions + context_hashes, 5);
    assert_eq!(Blueprint::top_level(&store), Err(StoreError::NotFound));
}

#[test]
fn scenario_one_level_cleared_in_one_pass() {
    let mut store = Store::new();
    assert_eq!(
        Blueprint { id: 100, payload: b"abc".to_vec(), timestamp: 1000 }.insert(&mut store),
        Ok(1)
    );
    assert_eq!(
        Block { level: 100, hash: b"aaaa".to_vec(), block: b"body".to_vec() }.insert(&mut store),
        Ok(1)
    );
    let batch = vec![transaction(100, 0, b"t1"), transaction(100, 1, b"t2")];
    assert_eq!(Transaction::batch_insert(&batch, &mut store), Ok(2));
    assert_eq!(ContextHash { id: 100, context_hash: b"ctx".to_vec() }.insert(&mut store), Ok(1));

    let cleared = store.clear_after(99).unwrap();
    assert_eq!(
        cleared,
        Cleared {
            blueprints: 1,
            blocks: 1,
            transactions: 2,
            context_hashes: 1,
            kernel_upgrades: 0,
            sequencer_upgrades: 0,
            kernel_upgrades_unapplied: 0,
            sequencer_upgrades_unapplied: 0,
        }
    );
    assert_eq!(
        cleared.blueprints + cleared.blocks + cleared.transactions + cleared.context_hashes,
        5
    );
    assert_eq!(Blueprint::top_level(&store), Err(StoreError::NotFound));
    assert_eq!(Blueprint::base_level(&store), Err(StoreError::NotFound));
}

#[test]
fn apply_installs_the_whole_level() {
    let mut store = store_with_mode();
    assert_eq!(apply_level(&mut store, 5, "five"), Ok(String::from("rolling")));
    assert_eq!(Blueprint::select(&store, 5), Ok((b"five-payload".to_vec(), 1005)));
    assert_eq!(Block::select_with_level(&store, 5), Ok(b"five-body".to_vec()));
    assert_eq!(Block::select_hash_of_number(&store, 5), Ok(b"five-hash".to_vec()));
    assert_eq!(Block::select_number_of_hash(&store, &b"five-hash".to_vec()), Ok(5));
    assert_eq!(ContextHash::select(&store, 5), Ok(b"five-ctx".to_vec()));
    let receipts = Transaction::select_receipts_from_block_number(&store, 5).unwrap();
    assert_eq!(receipts.len(), 2);
    assert_eq!(receipts[0].2, b"five-t1".to_vec());
    assert_eq!(receipts[1].2, b"five-t2".to_vec());
}

#[test]
fn apply_reads_the_pending_confirmation_without_using_it() {
    let mut with_marker = store_with_mode();
    let marker = PendingConfirmation { level: 5, hash: b"other".to_vec() };
    assert_eq!(marker.insert(&mut with_marker), Ok(1));
    assert_eq!(apply_level(&mut with_marker, 5, "five"), Ok(String::from("rolling")));
    assert_eq!(PendingConfirmation::select_with_level(&with_marker, 5), Ok(b"other".to_vec()));

    let mut without_marker = store_with_mode();
    assert_eq!(apply_level(&mut without_marker, 5, "five"), Ok(String::from("rolling")));
    assert_eq!(
        PendingConfirmation::select_with_level(&without_marker, 5),
        Err(StoreError::NotFound)
    );
}

#[test]
fn apply_fails_on_an_applied_level_and_changes_nothing() {
    let mut store = store_with_mode();
    assert_eq!(apply_level(&mut store, 5, "five"), Ok(String::from("rolling")));
    assert_eq!(apply_level(&mut store, 5, "again"), Err(StoreError::ConstraintViolation));
    assert_eq!(Blueprint::select(&store, 5), Ok((b"five-payload".to_vec(), 1005)));
    assert_eq!(ContextHash::select(&store, 5), Ok(b"five-ctx".to_vec()));
    assert_eq!(Blueprint::count(&store), Ok(1));
    assert_eq!(Block::count(&store), Ok(1));
    assert_eq!(Transaction::select_receipts_from_block_number(&store, 5).unwrap().len(), 2);
    assert_eq!(
        Transaction::select_receipt(&store, &b"again-t1".to_vec()),
        Err(StoreError::NotFound)
    );
}

#[test]
fn apply_fails_on_a_taken_block_hash_and_leaves_no_part_of_the_level() {
    let mut store = store_with_mode();
    assert_eq!(apply_level(&mut store, 5, "five"), Ok(String::from("rolling")));
    let transactions = vec![transaction(6, 0, b"six-t1")];
    let result = store.apply_blueprint(
        6,
        b"six-payload".to_vec(),
        1006,
        b"five-hash".to_vec(),
        b"six-body".to_vec(),
        &transactions,
        b"six-ctx".to_vec(),
    );
    assert_eq!(result, Err(StoreError::ConstraintViolation));
    assert_eq!(Blueprint::select(&store, 6), Err(StoreError::NotFound));
    assert_eq!(Block::select_with_level(&store, 6), Err(StoreError::NotFound));
    assert_eq!(ContextHash::select(&store, 6), Err(StoreError::NotFound));
    assert_eq!(Transaction::select_receipt(&store, &b"six-t1".to_vec()), Err(StoreError::NotFound));
    assert_eq!(Blueprint::top_level(&store), Ok(5));
}

#[test]
fn apply_fails_on_a_taken_transaction_hash_and_leaves_no_part_of_the_level() {
    let mut store = store_with_mode();
    assert_eq!(apply_level(&mut store, 5, "five"), Ok(String::from("rolling")));
    let clash_with_store = vec![transaction(6, 0, b"six-t1"), transaction(6, 1, b"five-t2")];
    let result = store.apply_blueprint(
        6,
        b"six-payload".to_vec(),
        1006,
        b"six-hash".to_vec(),
        b"six-body".to_vec(),
        &clash_with_store,
        b"six-ctx".to_vec(),
    );
    assert_eq!(result, Err(StoreError::ConstraintViolation));
    assert_eq!(Blueprint::select(&store, 6), Err(StoreError::NotFound));
    assert_eq!(Block::select_number_of_hash(&store, &b"six-hash".to_vec()), Err(StoreError::NotFound));
    assert_eq!(Transaction::select_receipt(&store, &b"six-t1".to_vec()), Err(StoreError::NotFound));

    let clash_within = vec![transaction(6, 0, b"six-t1"), transaction(6, 1, b"six-t1")];
    let result = store.apply_blueprint(
        6,
        b"six-payload".to_vec(),
        1006,
        b"six-hash".to_vec(),
        b"six-body".to_vec(),
        &clash_within,
        b"six-ctx".to_vec(),
    );
    assert_eq!(result, Err(StoreError::ConstraintViolation));
    assert_eq!(Blueprint::select(&store, 6), Err(StoreError::NotFound));
    assert_eq!(Transaction::select_receipt(&store, &b"six-t1".to_vec()), Err(StoreError::NotFound));
}

#[test]
fn apply_fails_without_a_history_mode_and_changes_nothing() {
    let mut store = Store::new();
    assert_eq!(apply_level(&mut store, 5, "five"), Err(StoreError::NotFound));
    assert_eq!(Blueprint::select(&store, 5), Err(StoreError::NotFound));
    assert_eq!(Block::select_with_level(&store, 5), Err(StoreError::NotFound));
    assert_eq!(ContextHash::select(&store, 5), Err(StoreError::NotFound));
    assert_eq!(Transaction::select_receipts_from_block_number(&store, 5), Ok(vec![]));
}

#[test]
fn apply_puts_the_context_hash_in_place_of_the_one_there() {
    let mut store = store_with_mode();
    assert_eq!(ContextHash { id: 5, context_hash: b"early".to_vec() }.insert(&mut store), Ok(1));
    assert_eq!(apply_level(&mut store, 5, "five"), Ok(String::from("rolling")));
    assert_eq!(ContextHash::select(&store, 5), Ok(b"five-ctx".to_vec()));
}

#[test]
fn apply_then_roll_back_to_the_prior_top_restores_the_store() {
    let mut store = store_with_mode();
    assert_eq!(apply_level(&mut store, 1, "one"), Ok(String::from("rolling")));
    assert_eq!(apply_level(&mut store, 2, "two"), Ok(String::from("rolling")));
    let prior_top = Blueprint::top_level(&store).unwrap();
    assert_eq!(prior_top, 2);
    let receipts_before = Transaction::select_receipts_from_block_number(&store, 2).unwrap();

    assert_eq!(apply_level(&mut store, 3, "three"), Ok(String::from("rolling")));
    let cleared = store.clear_after(prior_top).unwrap();
    assert_eq!(cleared.blueprints, 1);
    assert_eq!(cleared.blocks, 1);
    assert_eq!(cleared.transactions, 2);
    assert_eq!(cleared.context_hashes, 1);

    assert_eq!(Blueprint::select(&store, 3), Err(StoreError::NotFound));
    assert_eq!(Block::select_with_level(&store, 3), Err(StoreError::NotFound));
    assert_eq!(Block::select_number_of_hash(&store, &b"three-hash".to_vec()), Err(StoreError::NotFound));
    assert_eq!(Transaction::select_receipt(&store, &b"three-t1".to_vec()), Err(StoreError::NotFound));
    assert_eq!(Transaction::select_object(&store, &b"three-t2".to_vec()), Err(StoreError::NotFound));
    assert_eq!(Transaction::select_receipts_from_block_number(&store, 3), Ok(vec![]));
    assert_eq!(ContextHash::select(&store, 3), Err(StoreError::NotFound));

    assert_eq!(Blueprint::top_level(&store), Ok(2));
    assert_eq!(Block::top_level(&store), Ok(2));
    assert_eq!(ContextHash::get_latest(&store), Ok((2, b"two-ctx".to_vec())));
    assert_eq!(Blueprint::select(&store, 2), Ok((b"two-payload".to_vec(), 1002)));
    assert_eq!(Transaction::select_receipts_from_block_number(&store, 2), Ok(receipts_before));
    assert_eq!(Blueprint::count(&store), Ok(2));

    assert_eq!(apply_level(&mut store, 3, "three"), Ok(String::from("rolling")));
    assert_eq!(Blueprint::top_level(&store), Ok(3));
}

#[test]
fn roll_back_unwinds_the_upgrade_ledgers() {
    let mut store = Store::new();
    for (injected_before, tag) in [(10, "a"), (20, "b"), (30, "c")] {
        let upgrade = KernelUpgrade {
            injected_before,
            root_hash: tag.as_bytes().to_vec(),
            activation_timestamp: injected_before * 2,
            applied_before: None,
        };
        assert_eq!(upgrade.insert(&mut store), Ok(1));
        let upgrade = SequencerUpgrade {
            injected_before,
            sequencer: tag.as_bytes().to_vec(),
            pool_address: b"pool".to_vec(),
            activation_timestamp: i64::from(injected_before) * 3,
            applied_before: None,
        };
        assert_eq!(upgrade.insert(&mut store), Ok(1));
    }
    assert_eq!(KernelUpgrade::record_apply(&mut store, 25), Ok(3));
    assert_eq!(SequencerUpgrade::record_apply(&mut store, 15), Ok(3));

    let cleared = store.clear_after(20).unwrap();
    assert_eq!(cleared.kernel_upgrades_unapplied, 3);
    assert_eq!(cleared.kernel_upgrades, 1);
    assert_eq!(cleared.sequencer_upgrades_unapplied, 0);
    assert_eq!(cleared.sequencer_upgrades, 1);

    assert_eq!(KernelUpgrade::activation_levels(&store), Ok(vec![]));
    assert_eq!(KernelUpgrade::get_latest_unapplied(&store), Ok((20, b"b".to_vec(), 40)));
    assert_eq!(KernelUpgrade::find_injected_before(&store, 10), Ok((b"a".to_vec(), 20)));
    assert_eq!(KernelUpgrade::find_injected_before(&store, 30), Err(StoreError::NotFound));
    assert_eq!(SequencerUpgrade::activation_levels(&store), Ok(vec![15, 15]));
    assert_eq!(SequencerUpgrade::get_latest_unapplied(&store), Err(StoreError::NotFound));
    assert_eq!(
        SequencerUpgrade::find_injected_before(&store, 30),
        Err(StoreError::NotFound)
    );
}

#[test]
fn clear_before_prunes_every_table_below_the_level() {
    let mut store = store_with_mode();
    for level in 1..=4 {
        assert_eq!(apply_level(&mut store, level, &format!("l{level}")), Ok(String::from("rolling")));
    }
    let upgrade = KernelUpgrade {
        injected_before: 2,
        root_hash: b"root".to_vec(),
        activation_timestamp: 7,
        applied_before: None,
    };
    assert_eq!(upgrade.insert(&mut store), Ok(1));
    assert_eq!(KernelUpgrade::record_apply(&mut store, 4), Ok(1));

    let cleared = store.clear_before(3).unwrap();
    assert_eq!(
        cleared,
        Cleared {
            blueprints: 2,
            blocks: 2,
            transactions: 4,
            context_hashes: 2,
            kernel_upgrades: 1,
            sequencer_upgrades: 0,
            kernel_upgrades_unapplied: 0,
            sequencer_upgrades_unapplied: 0,
        }
    );
    assert_eq!(Blueprint::base_level(&store), Ok(3));
    assert_eq!(Block::base_level(&store), Ok(3));
    assert_eq!(ContextHash::get_earliest(&store), Ok((3, b"l3-ctx".to_vec())));
    assert_eq!(Blueprint::select(&store, 2), Err(StoreError::NotFound));
    assert_eq!(Block::select_number_of_hash(&store, &b"l2-hash".to_vec()), Err(StoreError::NotFound));
    assert_eq!(Block::select_number_of_hash(&store, &b"l3-hash".to_vec()), Ok(3));
    assert_eq!(Transaction::select_receipts_from_block_number(&store, 2), Ok(vec![]));
    assert_eq!(Transaction::select_receipts_from_block_number(&store, 3).unwrap().len(), 2);
    assert_eq!(KernelUpgrade::activation_levels(&store), Ok(vec![]));
}
