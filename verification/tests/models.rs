use evmnodetooling::block::Block;
use evmnodetooling::block_storage_mode::BlockStorageMode;
use evmnodetooling::blueprint::Blueprint;
use evmnodetooling::context_hash::ContextHash;
use evmnodetooling::context_hash::context_hash_of_block_hash;
use evmnodetooling::delayed_transaction::DelayedTransaction;
use evmnodetooling::error::StoreError;
use evmnodetooling::irmin_chunk::IrminChunk;
use evmnodetooling::kernel_upgrade::KernelUpgrade;
use evmnodetooling::l1l2_finalized_level::L1L2FinalizedLevel;
use evmnodetooling::l1l2_level_relationship::L1L2LevelRelationship;
use evmnodetooling::metadata::Metadata;
use evmnodetooling::migration::Migration;
use evmnodetooling::pending_confirmation::PendingConfirmation;
use evmnodetooling::sequencer_upgrade::SequencerUpgrade;
use evmnodetooling::store::Store;
use evmnodetooling::transaction::Transaction;

fn bytes_of(text: &str) -> Vec<u8> {
    text.as_bytes().to_vec()
}

/// A store that holds three levels of a chain, with two transactions each, and the settings
/// of a node.
fn seeded_store() -> Store {
    let mut store = Store::new();
    for level in 1..=3 {
        let blueprint = Blueprint {
            id: level,
            payload: bytes_of(&format!("seed payload {level}")),
            timestamp: 900 + level,
        };
        assert_eq!(blueprint.insert(&mut store), Ok(1));
        let block = Block {
            level,
            hash: bytes_of(&format!("seed block hash {level}")),
            block: bytes_of(&format!("seed block {level}")),
        };
        assert_eq!(block.insert(&mut store), Ok(1));
        for index in 0..2 {
            let transaction = Transaction {
                block_hash: bytes_of(&format!("seed block hash {level}")),
                block_number: level,
                index_: index,
                hash: bytes_of(&format!("seed transaction {level}-{index}")),
                from_: bytes_of("seed sender"),
                to_: if index == 0 { Some(bytes_of("seed recipient")) } else { None },
                receipt_fields: bytes_of(&format!("seed receipt {level}-{index}")),
                object_fields: bytes_of(&format!("seed object {level}-{index}")),
            };
            assert_eq!(transaction.insert(&mut store), Ok(1));
        }
        let context_hash = ContextHash {
            id: level,
            context_hash: bytes_of(&format!("seed context {level}")),
        };
        assert_eq!(context_hash.insert(&mut store), Ok(1));
    }
    assert_eq!(Metadata::insert_history_mode(&mut store, "archive"), Ok(1));
    assert_eq!(Metadata::insert_smart_rollup_address(&mut store, "sr1seed"), Ok(1));
    store.block_storage_mode = Some(0);
    let migration = Migration { id: 0, name: Some(String::from("initial")) };
    assert_eq!(migration.register_migration(&mut store), Ok(1));
    store
}

#[test]
fn block_test_block_insert_selects_clearafter() {
    let mut store = seeded_store();

    let run = |conn: &mut Store| -> Result<(), StoreError> {
        let inserted_hash = "hash".as_bytes().to_vec();
        let inserted_block = "block".as_bytes().to_vec();
        let base_insert_index = Block::top_level(conn)?;

        let insert_block = Block {
            level: base_insert_index + 1,
            hash: inserted_hash.clone(),
            block: inserted_block.clone(),
        };

        let _ = insert_block.insert(conn)?;

        let block_from_level = Block::select_with_level(conn, base_insert_index + 1)?;
        let hash_of_number = Block::select_hash_of_number(conn, base_insert_index + 1)?;
        let number_of_hash = Block::select_number_of_hash(conn, &hash_of_number)?;
        let block_from_hash = Block::select_with_hash(conn, &hash_of_number)?;

        assert_eq!(block_from_level, inserted_block);
        assert_eq!(hash_of_number, inserted_hash);
        assert_eq!(number_of_hash, base_insert_index + 1);
        assert_eq!(block_from_hash, inserted_block);

        let expected_rows_cleared: usize = 1;

        let rows_cleared = Block::clear_after(conn, base_insert_index)?;

        assert_eq!(rows_cleared, expected_rows_cleared);
        Ok(())
    };
    run(&mut store).unwrap();
}

#[test]
fn block_test_block_selects() {
    let mut store = seeded_store();

    let run = |conn: &mut Store| -> Result<(), StoreError> {
        let select_index = Block::top_level(conn)?;

        let block_from_level = Block::select_with_level(conn, select_index)?;
        let hash_of_number = Block::select_hash_of_number(conn, select_index)?;
        let number_of_hash = Block::select_number_of_hash(conn, &hash_of_number)?;
        let block_from_hash = Block::select_with_hash(conn, &hash_of_number)?;

        assert_eq!(block_from_hash, block_from_level);
        assert_eq!(number_of_hash, select_index);

        Ok(())
    };
    run(&mut store).unwrap();
}

#[test]
fn test_block_storage_mode() {
    let mut store = seeded_store();

    let run = |conn: &mut Store| -> Result<(), StoreError> {
        let mut expected_legacy = 0;

        let current_legacy = BlockStorageMode::legacy(conn)?;

        assert_eq!(current_legacy, expected_legacy);

        BlockStorageMode::force_legacy(conn)?;

        expected_legacy = 1;

        let new_legacy = BlockStorageMode::legacy(conn)?;

        assert_eq!(new_legacy, expected_legacy);

        Ok(())
    };
    run(&mut store).unwrap();
}

#[test]
fn blueprint_test_blueprint_insert_select_clearafter() {
    let mut store = seeded_store();

    let run = |conn: &mut Store| -> Result<(), StoreError> {
        let inserted_payload = "payload".as_bytes().to_vec();
        let inserted_timestamp = 1000;
        let base_insert_index = Blueprint::top_level(conn)?;

        let blueprint = Blueprint {
            id: base_insert_index + 1,
            payload: inserted_payload.clone(),
            timestamp: inserted_timestamp,
        };

        let _ = blueprint.insert(conn);

        let (selected_payload, selected_timestamp) =
            Blueprint::select(conn, base_insert_index + 1)?;

        assert_eq!(selected_payload, inserted_payload);
        assert_eq!(selected_timestamp, inserted_timestamp);

        let expected_rows_cleared: usize = 1;

        let rows_cleared = Blueprint::clear_after(conn, base_insert_index)?;

        assert_eq!(rows_cleared, expected_rows_cleared);
        Ok(())
    };
    run(&mut store).unwrap();
}

#[test]
fn blueprint_test_blueprint_insert_selectrange_clearafter() {
    let mut store = seeded_store();

    let run = |conn: &mut Store| -> Result<(), StoreError> {
        let inserted_payloads = vec![
            "payload1".as_bytes().to_vec(),
            "payload2".as_bytes().to_vec(),
            "payload3".as_bytes().to_vec(),
        ];
        let inserted_timestamps = vec![1000, 1001, 1002];
        let base_insert_index = Blueprint::top_level(conn)?;

        let blueprint1 = Blueprint {
            id: base_insert_index + 1,
            payload: inserted_payloads[0].clone(),
            timestamp: inserted_timestamps[0],
        };
        let blueprint2 = Blueprint {
            id: base_insert_index + 2,
            payload: inserted_payloads[1].clone(),
            timestamp: inserted_timestamps[1],
        };
        let blueprint3 = Blueprint {
            id: base_insert_index + 3,
            payload: inserted_payloads[2].clone(),
            timestamp: inserted_timestamps[2],
        };
        let _ = blueprint1.insert(conn)?;
        let _ = blueprint2.insert(conn)?;
        let _ = blueprint3.insert(conn)?;

        let expected_vector = vec![
            base_insert_index + 1,
            base_insert_index + 2,
            base_insert_index + 3,
        ]
        .into_iter()
        .zip(inserted_payloads)
        .collect::<Vec<(i32, Vec<u8>)>>();
        let vector =
            Blueprint::select_range(conn, base_insert_index + 1, base_insert_index + 3)?;

        assert_eq!(vector, expected_vector);

        let expected_rows_cleared: usize = 3;

        let rows_cleared = Blueprint::clear_after(conn, base_insert_index)?;

        assert_eq!(rows_cleared, expected_rows_cleared);

        Ok(())
    };
    run(&mut store).unwrap();
}

#[test]
fn contexthash_test_context_hash_insert_select_get_clear() {
    let mut store = seeded_store();

    let run = |conn: &mut Store| -> Result<(), StoreError> {
        let iter = 10;
        for i in -1..iter {
            let inserted_level = i;
            let inserted_hash = format!("hash {i}").as_bytes().to_vec();

            let contexthash = ContextHash {
                id: inserted_level,
                context_hash: inserted_hash.clone(),
            };
            contexthash.insert(conn)?;
        }

        let earliest_id = 0;
        let earliest_hash = "hash 0".as_bytes().to_vec();

        let _ = ContextHash::clear_after(conn, iter)?;

        let expected_earliest = (-1, "hash -1".as_bytes().to_vec());

        let earliest = ContextHash::get_earliest(conn)?;

        assert_eq!(earliest, expected_earliest);
        assert_eq!(ContextHash::select(conn, earliest_id)?, earliest_hash);

        let new_earliest_hash = "Replaced hash".as_bytes().to_vec();

        let replace_earliest = ContextHash {
            id: earliest_id,
            context_hash: new_earliest_hash.clone(),
        };

        replace_earliest.insert(conn)?;

        let new_expected_earliest = (-1, "hash -1".as_bytes().to_vec());

        let new_earliest = ContextHash::get_earliest(conn)?;

        assert_eq!(new_earliest, new_expected_earliest);
        assert_eq!(ContextHash::select(conn, earliest_id)?, new_earliest_hash);

        let expected_latest = (iter - 1, format!("hash {}", iter - 1).as_bytes().to_vec());

        let latest = ContextHash::get_latest(conn)?;

        assert_eq!(latest, expected_latest);

        let expected_clear: usize = (iter + 1) as usize;

        let clear = ContextHash::clear_before(conn, iter)?;

        assert_eq!(clear, expected_clear);

        Ok(())
    };
    run(&mut store).unwrap();
}

#[test]
fn delayedtransaction_test_delayed_transaction_all() {
    let mut store = seeded_store();

    let run = |conn: &mut Store| -> Result<(), StoreError> {
        let inserted_injected_before = 5000;
        let inserted_hash = "hash".as_bytes().to_vec();
        let inserted_payload = "payload".as_bytes().to_vec();

        let delayed_transaction = DelayedTransaction {
            injected_before: inserted_injected_before,
            hash: inserted_hash.clone(),
            payload: inserted_payload.clone(),
        };

        delayed_transaction.insert(conn)?;

        let select_payload_at_level =
            DelayedTransaction::select_at_level(conn, inserted_injected_before)?;
        let select_payload_at_hash = DelayedTransaction::select_at_hash(conn, &inserted_hash)?;

        assert_eq!(select_payload_at_level, inserted_payload);
        assert_eq!(select_payload_at_hash, inserted_payload);

        let expected_clear: usize = 1;

        let clear = DelayedTransaction::clear_before(conn, inserted_injected_before + 1)?;

        assert_eq!(clear, expected_clear);

        Ok(())
    };
    run(&mut store).unwrap();
}

#[test]
fn test_irmin_chunk_all() {
    let mut store = seeded_store();

    let run = |conn: &mut Store| -> Result<(), StoreError> {
        IrminChunk::clear(conn)?;

        let iter = 3;
        let level_base = Block::top_level(conn)?;
        let timestamp_base = 6000;
        for i in 0..iter {
            let chunk = IrminChunk {
                level: level_base + i,
                timestamp: timestamp_base + i,
            };
            chunk.insert(conn)?;
        }

        let expected_nth = (level_base, timestamp_base);

        let nth = IrminChunk::nth(conn, (iter - 1) as i64)?;

        assert_eq!(nth, expected_nth);

        let expected_latest = (level_base + iter - 1, timestamp_base + iter - 1);

        let latest = IrminChunk::latest(conn)?;

        assert_eq!(latest, expected_latest);

        let expected_clear = iter as usize;

        let clear = IrminChunk::clear_after(conn, level_base - 1)?;

        assert_eq!(clear, expected_clear);

        Ok(())
    };
    run(&mut store).unwrap();
}

#[test]
fn kernelupgrade_test_kernel_upgrade_all() {
    let mut store = seeded_store();

    let run = |conn: &mut Store| -> Result<(), StoreError> {
        let injected_before_base = 5000;
        let iter = 10;
        let applied_before_base = 6000;
        let mut expected_activation_levels: Vec<i32> = Vec::new();
        for i in 0..iter {
            let inserted_injected_before = injected_before_base + i;
            let inserted_root_hash = format!("root_hash {}", i).as_bytes().to_vec();
            let inserted_activation_timestamp = i;
            let inserted_applied_before = None;

            let kernel_upgrade = KernelUpgrade {
                injected_before: inserted_injected_before,
                root_hash: inserted_root_hash.clone(),
                activation_timestamp: inserted_activation_timestamp,
                applied_before: inserted_applied_before,
            };

            kernel_upgrade.insert(conn)?;

            let applied_before_value = applied_before_base + i;

            KernelUpgrade::record_apply(conn, applied_before_value)?;

            expected_activation_levels.push(applied_before_value);
        }

        expected_activation_levels.reverse();

        let inserted_injected_before = injected_before_base + iter;
        let inserted_root_hash = format!("root_hash {}", iter).as_bytes().to_vec();
        let inserted_activation_timestamp = iter;
        let inserted_applied_before = None;

        let kernel_upgrade = KernelUpgrade {
            injected_before: inserted_injected_before,
            root_hash: inserted_root_hash.clone(),
            activation_timestamp: inserted_activation_timestamp,
            applied_before: inserted_applied_before,
        };

        kernel_upgrade.insert(conn)?;

        let (
            latest_unapplied_injected_before,
            latest_unapplied_root_hash,
            latest_unapplied_activation_timestamp,
        ) = KernelUpgrade::get_latest_unapplied(conn)?;

        assert_eq!(latest_unapplied_injected_before, inserted_injected_before);
        assert_eq!(latest_unapplied_root_hash, inserted_root_hash);
        assert_eq!(
            latest_unapplied_activation_timestamp,
            inserted_activation_timestamp
        );

        let queried_injected_before = injected_before_base;
        let expected_root_hash = "root_hash 0".as_bytes().to_vec();
        let expected_activation_timestamp = 0;

        let (injected_before_root_hash, injected_before_activation_timestamp) =
            KernelUpgrade::find_injected_before(conn, queried_injected_before)?;

        assert_eq!(injected_before_root_hash, expected_root_hash);
        assert_eq!(
            injected_before_activation_timestamp,
            expected_activation_timestamp
        );

        let activations_levels = KernelUpgrade::activation_levels(conn)?;

        assert_eq!(activations_levels, expected_activation_levels);

        let (latest_injected_after_root_hash, latest_injected_after_activation_timestamp) =
            KernelUpgrade::find_latest_injected_after(conn, inserted_injected_before - 4)?;

        assert_eq!(latest_injected_after_root_hash, inserted_root_hash);
        assert_eq!(
            latest_injected_after_activation_timestamp,
            inserted_activation_timestamp
        );

        KernelUpgrade::record_apply(conn, applied_before_base + iter)?;

        let result = KernelUpgrade::get_latest_unapplied(conn);

        assert_eq!(result, Err(StoreError::NotFound));

        let expected_nullified_rows = 1;
        let nullified_rows = KernelUpgrade::nullify_after(conn, applied_before_base + 9)?;

        assert_eq!(nullified_rows, expected_nullified_rows);

        let (
            latest_unapplied_injected_before,
            latest_unapplied_root_hash,
            latest_unapplied_activation_timestamp,
        ) = KernelUpgrade::get_latest_unapplied(conn)?;

        assert_eq!(latest_unapplied_injected_before, inserted_injected_before);
        assert_eq!(latest_unapplied_root_hash, inserted_root_hash);
        assert_eq!(
            latest_unapplied_activation_timestamp,
            inserted_activation_timestamp
        );

        let expected_clear: usize = (iter + 1) as usize;

        let clear = KernelUpgrade::clear_before(conn, injected_before_base + iter + 1)?;

        assert_eq!(clear, expected_clear);

        Ok(())
    };
    run(&mut store).unwrap();
}

#[test]
fn test_l1_l2_finalized_level_all() {
    let mut store = seeded_store();

    let run = |conn: &mut Store| -> Result<(), StoreError> {
        L1L2FinalizedLevel::clear_after(conn, 0)?;
        let iter = 3;
        let l1_level_base = 6000;
        let start_l2_level_base = Block::top_level(conn)?;
        let span = iter;
        let end_l2_level_base = start_l2_level_base + span;

        for i in 0..iter {
            let finalizedlevel = L1L2FinalizedLevel {
                l1_level: l1_level_base + i,
                start_l2_level: start_l2_level_base + i,
                end_l2_level: end_l2_level_base + i,
            };
            finalizedlevel.insert(conn)?;
        }

        let expected_get = (start_l2_level_base, end_l2_level_base);

        let get = L1L2FinalizedLevel::get(conn, l1_level_base)?;

        assert_eq!(get, expected_get);

        let expected_last_l2_level = end_l2_level_base + iter - 1;

        let last_l2_level = L1L2FinalizedLevel::last_l2_level(conn)?;

        assert_eq!(last_l2_level, expected_last_l2_level);

        let expected_last = (
            l1_level_base + iter - 1,
            start_l2_level_base + iter - 1,
            end_l2_level_base + iter - 1,
        );

        let last = L1L2FinalizedLevel::last(conn)?;

        assert_eq!(last, expected_last);

        let expected_l1_level = l1_level_base + iter - 1;

        let find_l1_level = L1L2FinalizedLevel::find_l1_level(conn, end_l2_level_base)?;

        assert_eq!(find_l1_level, expected_l1_level);

        let expected_list = (0..iter)
            .map(|i| {
                (
                    l1_level_base + i,
                    start_l2_level_base + i,
                    end_l2_level_base + i,
                )
            })
            .collect::<Vec<(i32, i32, i32)>>();

        let list_by_l2 = L1L2FinalizedLevel::list_by_l2_levels(
            conn,
            start_l2_level_base,
            end_l2_level_base + iter - 1,
        )?;

        let list_by_l1 = L1L2FinalizedLevel::list_by_l1_levels(
            conn,
            l1_level_base,
            l1_level_base + iter - 1,
        )?;

        assert_eq!(list_by_l2, expected_list);
        assert_eq!(list_by_l1, expected_list);

        let expected_clear = iter as usize;

        let clear = L1L2FinalizedLevel::clear_after(conn, end_l2_level_base - 1)?;

        assert_eq!(clear, expected_clear);

        Ok(())
    };
    run(&mut store).unwrap();
}

#[test]
fn test_l1_l2_level_relationship_all() {
    let mut store = seeded_store();

    let run = |conn: &mut Store| -> Result<(), StoreError> {
        let iter = 3;
        let latest_l2_level_base = Block::top_level(conn)?;
        let l1_level_base = 6000;
        for i in 0..iter {
            let relationship = L1L2LevelRelationship {
                latest_l2_level: latest_l2_level_base + i,
                l1_level: l1_level_base + i,
            };
            relationship.insert(conn)?;
        }

        let expected_get = (latest_l2_level_base + iter - 1, l1_level_base + iter - 1);

        let get = L1L2LevelRelationship::get(conn)?;

        assert_eq!(get, expected_get);

        let expected_clear = iter as usize;

        let clear = L1L2LevelRelationship::clear_after(conn, latest_l2_level_base - 1)?;

        assert_eq!(clear, expected_clear);

        Ok(())
    };
    run(&mut store).unwrap();
}

#[test]
fn metadata_test_metadata_insert_select() {
    let mut store = seeded_store();

    let run = |conn: &mut Store| -> Result<(), StoreError> {
        let history_mode = "new history mode";

        Metadata::insert_history_mode(conn, history_mode)?;

        let new_history_mode = Metadata::get_history_mode(conn)?;

        assert_eq!(new_history_mode, history_mode);

        let smart_rollup_node_address = "new smart rollup node address";

        Metadata::insert_smart_rollup_address(conn, smart_rollup_node_address)?;

        let new_smart_rollup_node_address = Metadata::get_smart_rollup_address(conn)?;

        assert_eq!(new_smart_rollup_node_address, smart_rollup_node_address);

        Ok(())
    };
    run(&mut store).unwrap();
}

#[test]
fn test_migration_all() {
    let mut store = seeded_store();

    let run = |conn: &mut Store| -> Result<(), StoreError> {
        let current_migration = Migration::current_migration(conn)?;

        let current_id = current_migration + 1;
        let current_name = Some(String::from("test text"));

        let migration = Migration {
            id: current_id,
            name: current_name,
        };

        migration.register_migration(conn)?;

        let new_current_migration = Migration::current_migration(conn)?;

        assert_eq!(new_current_migration, current_id);

        Ok(())
    };
    run(&mut store).unwrap();
}

#[test]
fn test_join_context_hash_block_hash() {
    let mut store = seeded_store();

    let run = |conn: &mut Store| -> Result<(), StoreError> {
        let id = 10;

        let inserted_context_hash = "context_hash".as_bytes().to_vec();
        let inserted_block_hash = "block_hash".as_bytes().to_vec();
        let inserted_block = "block".as_bytes().to_vec();

        let block = Block {
            level: id,
            hash: inserted_block_hash.clone(),
            block: inserted_block.clone(),
        };

        let context_hash = ContextHash {
            id,
            context_hash: inserted_context_hash.clone(),
        };

        block.insert(conn)?;
        context_hash.insert(conn)?;

        let select_context_hash = context_hash_of_block_hash(conn, &inserted_block_hash)?;

        assert_eq!(inserted_context_hash, select_context_hash);

        Ok(())
    };
    run(&mut store).unwrap();
}

#[test]
fn pendingconfirmation_test_pending_confirmation_insert_select_delete() {
    let mut store = seeded_store();

    let run = |conn: &mut Store| -> Result<(), StoreError> {
        let inserted_level = 0;
        let inserted_hash = "hash".as_bytes().to_vec();

        let pendingconfirmation = PendingConfirmation {
            level: inserted_level,
            hash: inserted_hash.clone(),
        };
        pendingconfirmation.insert(conn)?;

        let selected_hash = PendingConfirmation::select_with_level(conn, inserted_level)?;

        assert_eq!(selected_hash, inserted_hash);

        let expected_delete_row = 1;

        let delete_row = PendingConfirmation::delete_with_level(conn, inserted_level)?;

        assert_eq!(delete_row, expected_delete_row);

        Ok(())
    };
    run(&mut store).unwrap();
}

#[test]
fn pendingconfirmation_test_pending_confirmation_insert_count_clear() {
    let mut store = seeded_store();

    let run = |conn: &mut Store| -> Result<(), StoreError> {
        let iter = 10;
        for i in 0..iter {
            let inserted_level = i;
            let inserted_hash = format!("hash {i}").as_bytes().to_vec();

            let pendingconfirmation = PendingConfirmation {
                level: inserted_level,
                hash: inserted_hash.clone(),
            };
            pendingconfirmation.insert(conn)?;
        }

        let expected_count: i64 = iter.into();

        let count = PendingConfirmation::count(conn)?;

        assert_eq!(count, expected_count);

        let expected_clear: usize = iter as usize;

        let clear = PendingConfirmation::clear(conn)?;

        assert_eq!(clear, expected_clear);

        Ok(())
    };
    run(&mut store).unwrap();
}

#[test]
fn sequencerupgrade_test_sequencer_upgrade_all() {
    let mut store = seeded_store();

    let run = |conn: &mut Store| -> Result<(), StoreError> {
        let injected_before_base = 5000;
        let iter = 10;
        let applied_before_base = 6000;
        let mut expected_activation_levels: Vec<i32> = Vec::new();

        for i in 0..iter {
            let inserted_injected_before = injected_before_base + i;
            let inserted_sequencer = format!("sequencer {}", i).as_bytes().to_vec();
            let inserted_pool_address = format!("pool_address {}", i).as_bytes().to_vec();
            let inserted_activation_timestamp = i64::from(i);
            let inserted_applied_before = None;

            let sequencer_upgrade = SequencerUpgrade {
                injected_before: inserted_injected_before,
                sequencer: inserted_sequencer.clone(),
                pool_address: inserted_pool_address.clone(),
                activation_timestamp: inserted_activation_timestamp,
                applied_before: inserted_applied_before,
            };

            sequencer_upgrade.insert(conn)?;

            let applied_before_value = applied_before_base + i;

            SequencerUpgrade::record_apply(conn, applied_before_value)?;

            expected_activation_levels.push(applied_before_value);
        }

        expected_activation_levels.reverse();

        let inserted_injected_before = injected_before_base + iter;
        let inserted_sequencer = format!("sequencer {}", iter).as_bytes().to_vec();
        let inserted_pool_address = format!("pool_address {}", iter).as_bytes().to_vec();
        let inserted_activation_timestamp = i64::from(iter);
        let inserted_applied_before = None;

        let sequencer_upgrade = SequencerUpgrade {
            injected_before: inserted_injected_before,
            sequencer: inserted_sequencer.clone(),
            pool_address: inserted_pool_address.clone(),
            activation_timestamp: inserted_activation_timestamp,
            applied_before: inserted_applied_before,
        };

        sequencer_upgrade.insert(conn)?;

        let (
            latest_unapplied_injected_before,
            latest_unapplied_sequencer,
            latest_unapplied_pool_address,
            latest_unapplied_activation_timestamp,
        ) = SequencerUpgrade::get_latest_unapplied(conn)?;

        assert_eq!(latest_unapplied_injected_before, inserted_injected_before);
        assert_eq!(latest_unapplied_sequencer, inserted_sequencer);
        assert_eq!(latest_unapplied_pool_address, inserted_pool_address);
        assert_eq!(
            latest_unapplied_activation_timestamp,
            inserted_activation_timestamp
        );

        let queried_injected_before = injected_before_base;
        let expected_sequencer = "sequencer 0".as_bytes().to_vec();
        let expected_pool_address = "pool_address 0".as_bytes().to_vec();
        let expected_activation_timestamp = 0;

        let (
            injected_before_sequencer,
            injected_before_pool_address,
            injected_before_activation_timestamp,
        ) = SequencerUpgrade::find_injected_before(conn, queried_injected_before)?;

        assert_eq!(injected_before_sequencer, expected_sequencer);
        assert_eq!(injected_before_pool_address, expected_pool_address);
        assert_eq!(
            injected_before_activation_timestamp,
            expected_activation_timestamp
        );

        let activations_levels = SequencerUpgrade::activation_levels(conn)?;

        assert_eq!(activations_levels, expected_activation_levels);

        let (
            latest_injected_after_sequencer,
            latest_injected_after_pool_address,
            latest_injected_after_activation_timestamp,
        ) = SequencerUpgrade::find_latest_injected_after(conn, inserted_injected_before - 4)?;

        assert_eq!(latest_injected_after_sequencer, inserted_sequencer);
        assert_eq!(latest_injected_after_pool_address, inserted_pool_address);
        assert_eq!(
            latest_injected_after_activation_timestamp,
            inserted_activation_timestamp
        );

        SequencerUpgrade::record_apply(conn, applied_before_base + iter)?;

        let result = SequencerUpgrade::get_latest_unapplied(conn);

        assert_eq!(result, Err(StoreError::NotFound));

        let expected_nullified_rows = 1;
        let nullified_rows = SequencerUpgrade::nullify_after(conn, applied_before_base + 9)?;

        assert_eq!(nullified_rows, expected_nullified_rows);

        let (
            latest_unapplied_injected_before,
            latest_unapplied_sequencer,
            latest_unapplied_pool_address,
            latest_unapplied_activation_timestamp,
        ) = SequencerUpgrade::get_latest_unapplied(conn)?;

        assert_eq!(latest_unapplied_injected_before, inserted_injected_before);
        assert_eq!(latest_unapplied_sequencer, inserted_sequencer);
        assert_eq!(latest_unapplied_pool_address, inserted_pool_address);
        assert_eq!(
            latest_unapplied_activation_timestamp,
            inserted_activation_timestamp
        );

        let expected_clear: usize = (iter + 1) as usize;

        let clear = SequencerUpgrade::clear_before(conn, injected_before_base + iter + 1)?;

        assert_eq!(clear, expected_clear);

        Ok(())
    };
    run(&mut store).unwrap();
}

#[test]
fn transaction_test_transaction_insert_select_clear() {
    let mut store = seeded_store();

    let run = |conn: &mut Store| -> Result<(), StoreError> {
        let inserted_block_hash: Vec<u8> = "block_hash".as_bytes().to_vec();
        let inserted_block_number = Block::top_level(conn)? + 1;
        let inserted_index_ = 0;
        let inserted_hash: Vec<u8> = "transactionHash".as_bytes().to_vec();
        let inserted_from_ = "from_".as_bytes().to_vec();
        let inserted_to_ = Some("to_".as_bytes().to_vec());
        let inserted_receipt_fields = "receipt_fields".as_bytes().to_vec();
        let inserted_object_fields = "object_fields".as_bytes().to_vec();

        let transaction = Transaction {
            block_hash: inserted_block_hash.clone(),
            block_number: inserted_block_number,
            index_: inserted_index_,
            hash: inserted_hash.clone(),
            from_: inserted_from_.clone(),
            to_: inserted_to_.clone(),
            receipt_fields: inserted_receipt_fields.clone(),
            object_fields: inserted_object_fields.clone(),
        };

        let _ = transaction.insert(conn);

        let (
            select_block_hash,
            select_block_number,
            select_index_,
            select_hash,
            select_from_,
            select_to_,
            select_receipt_fields,
        ) = Transaction::select_receipt(conn, &inserted_hash)?;

        assert_eq!(select_block_hash, inserted_block_hash);
        assert_eq!(select_block_number, inserted_block_number);
        assert_eq!(select_index_, inserted_index_);
        assert_eq!(select_hash, inserted_hash);
        assert_eq!(select_from_, inserted_from_);
        assert_eq!(select_to_, inserted_to_);
        assert_eq!(select_receipt_fields, inserted_receipt_fields);

        let expected_rows_cleared = 1;

        let rows_cleared = Transaction::clear_after(conn, inserted_block_number - 1)?;

        assert_eq!(rows_cleared, expected_rows_cleared);
        Ok(())
    };
    run(&mut store).unwrap();
}

#[test]
fn transaction_test_transaction_selects() {
    let mut store = seeded_store();

    let run = |conn: &mut Store| -> Result<(), StoreError> {
        let select_block_level = Block::top_level(conn)?;

        let receipts =
            Transaction::select_receipts_from_block_number(conn, select_block_level)?;

        let objects = Transaction::select_objects_from_block_number(conn, select_block_level)?;

        let length = receipts.len();
        for i in 0..length {
            let (vec_block_hash, vec_index_, vec_hash, vec_from_, vec_to_, vec_receipt_fields) =
                (&receipts[i]).clone();
            let (_, _, _, _, vec_object_fields) = (&objects[i]).clone();

            let (
                select_block_hash,
                select_block_number,
                select_index_,
                select_hash,
                select_from_,
                select_to_,
                select_receipt_fields,
            ) = Transaction::select_receipt(conn, &vec_hash)?;
            let (_, _, _, _, _, _, select_object_fields) =
                Transaction::select_object(conn, &vec_hash)?;

            assert_eq!(select_block_hash, vec_block_hash);
            assert_eq!(select_block_number, select_block_level);
            assert_eq!(select_index_, vec_index_);
            assert_eq!(select_hash, vec_hash);
            assert_eq!(select_from_, vec_from_);
            assert_eq!(select_to_, vec_to_);
            assert_eq!(select_receipt_fields, vec_receipt_fields);
            assert_eq!(select_object_fields, vec_object_fields);
        }

        Ok(())
    };
    run(&mut store).unwrap();
}

#[test]
fn test_transaction_batch_insert_clear() {
    let mut store = seeded_store();

    let run = |conn: &mut Store| -> Result<(), StoreError> {
        let iter=5;
        let inserted_block_hash: Vec<u8> = "block_hash".as_bytes().to_vec();
        let inserted_block_number = Block::top_level(conn)? + 1;
        let inserted_index_ = 0;
        let inserted_from_ = "from_".as_bytes().to_vec();
        let inserted_to_ = Some("to_".as_bytes().to_vec());
        let inserted_receipt_fields = "receipt_fields".as_bytes().to_vec();
        let inserted_object_fields = "object_fields".as_bytes().to_vec();

        let mut batch=Vec::new();
        for i in 0..iter{

            let inserted_hash: Vec<u8> = format!("transactionHash:{i}").as_bytes().to_vec();

            let transaction = Transaction {
                block_hash: inserted_block_hash.clone(),
                block_number: inserted_block_number,
                index_: inserted_index_,
                hash: inserted_hash.clone(),
                from_: inserted_from_.clone(),
                to_: inserted_to_.clone(),
                receipt_fields: inserted_receipt_fields.clone(),
                object_fields: inserted_object_fields.clone(),
            };

            batch.push(transaction);
        }

        Transaction::batch_insert(&batch, conn)?;



        let expected_rows_cleared = iter as usize;

        let rows_cleared = Transaction::clear_after(conn, inserted_block_number - 1)?;

        assert_eq!(rows_cleared, expected_rows_cleared);
        Ok(())
    };
    run(&mut store).unwrap();
}
