use evmnodetooling::block::Block;
use evmnodetooling::blueprint::Blueprint;
use evmnodetooling::context_hash::ContextHash;
use evmnodetooling::error::StoreError;
use evmnodetooling::irmin_chunk::IrminChunk;
use evmnodetooling::kernel_upgrade::KernelUpgrade;
use evmnodetooling::metadata::Metadata;
use evmnodetooling::server::{
    answer_query, internal_database_message, refusal, Param, ServerError, SqlResponse, Sqlquery,
};
use evmnodetooling::store::Store;
use evmnodetooling::transaction::Transaction;

fn query(name: &str, params: Vec<Param>) -> Sqlquery {
    Sqlquery { name: String::from(name), params }
}

fn store() -> Store {
    let mut store = Store::new();
    for level in [1, 2, 3] {
        let blueprint = Blueprint {
            id: level,
            payload: format!("payload {level}").into_bytes(),
            timestamp: 10 * level,
        };
        assert_eq!(blueprint.insert(&mut store), Ok(1));
        let block = Block {
            level,
            hash: format!("hash {level}").into_bytes(),
            block: format!("body {level}").into_bytes(),
        };
        assert_eq!(block.insert(&mut store), Ok(1));
        let context_hash =
            ContextHash { id: level, context_hash: format!("ctx {level}").into_bytes() };
        assert_eq!(context_hash.insert(&mut store), Ok(1));
    }
    let transaction = Transaction {
        block_hash: b"hash 2".to_vec(),
        block_number: 2,
        index_: 0,
        hash: b"tx".to_vec(),
        from_: b"from".to_vec(),
        to_: None,
        receipt_fields: b"receipt".to_vec(),
        object_fields: b"object".to_vec(),
    };
    assert_eq!(transaction.insert(&mut store), Ok(1));
    assert_eq!(Metadata::insert_history_mode(&mut store, "archive"), Ok(1));
    assert_eq!(IrminChunk { level: 3, timestamp: 33 }.insert(&mut store), Ok(1));
    assert_eq!(IrminChunk { level: 2, timestamp: 22 }.insert(&mut store), Ok(1));
    store
}

fn show(result: Result<SqlResponse, ServerError>) -> String {
    format!("{result:?}")
}

#[test]
fn query_is_answered_by_the_operation_of_its_name() {
    let store = store();
    assert_eq!(
        show(answer_query(&store, &query("select_blueprint", vec![Param::Integer(2)]))),
        show(Ok(SqlResponse::Blueprint { payload: b"payload 2".to_vec(), timestamp: 20 }))
    );
    assert_eq!(
        show(answer_query(
            &store,
            &query("select_blueprint_range", vec![Param::Integer(2), Param::Integer(3)])
        )),
        show(Ok(SqlResponse::BlueprintRange {
            idandpayloads: vec![(2, b"payload 2".to_vec()), (3, b"payload 3".to_vec())]
        }))
    );
    assert_eq!(
        show(answer_query(&store, &query("select_block_with_level", vec![Param::Integer(1)]))),
        show(Ok(SqlResponse::Block { block: b"body 1".to_vec() }))
    );
    assert_eq!(
        show(answer_query(
            &store,
            &query("select_block_with_hash", vec![Param::Bytes(b"hash 3".to_vec())])
        )),
        show(Ok(SqlResponse::Block { block: b"body 3".to_vec() }))
    );
    assert_eq!(
        show(answer_query(&store, &query("select_block_hash_of_number", vec![Param::Integer(3)]))),
        show(Ok(SqlResponse::BlockHash { hash: b"hash 3".to_vec() }))
    );
    assert_eq!(
        show(answer_query(
            &store,
            &query("select_block_number_of_hash", vec![Param::Bytes(b"hash 2".to_vec())])
        )),
        show(Ok(SqlResponse::BlockId { id: 2 }))
    );
    assert_eq!(
        show(answer_query(&store, &query("count_pending_confirmations", vec![]))),
        show(Ok(SqlResponse::PendingConfirmationCount { count: 0 }))
    );
    assert_eq!(
        show(answer_query(
            &store,
            &query("select_transaction_receipt", vec![Param::Bytes(b"tx".to_vec())])
        )),
        show(Ok(SqlResponse::TransactionReceipt {
            block_hash: b"hash 2".to_vec(),
            block_number: 2,
            index_: 0,
            hash: b"tx".to_vec(),
            from_: b"from".to_vec(),
            to_: None,
            receipt_fields: b"receipt".to_vec(),
        }))
    );
    assert_eq!(
        show(answer_query(
            &store,
            &query("select_transaction_objects_from_block_number", vec![Param::Integer(2)])
        )),
        show(Ok(SqlResponse::TransactionObjects {
            objects: vec![(0, b"tx".to_vec(), b"from".to_vec(), None, b"object".to_vec())]
        }))
    );
    assert_eq!(
        show(answer_query(&store, &query("get_latest_context_hash", vec![]))),
        show(Ok(SqlResponse::ContextHashGet { id: 3, context_hash: b"ctx 3".to_vec() }))
    );
    assert_eq!(
        show(answer_query(&store, &query("get_earliest_context_hash", vec![]))),
        show(Ok(SqlResponse::ContextHashGet { id: 1, context_hash: b"ctx 1".to_vec() }))
    );
    assert_eq!(
        show(answer_query(&store, &query("get_history_mode", vec![]))),
        show(Ok(SqlResponse::MetadataHistoryMode { history_mode: String::from("archive") }))
    );
    assert_eq!(
        show(answer_query(&store, &query("kernel_upgrade_activation_levels", vec![]))),
        show(Ok(SqlResponse::ActivationLevels { activation_levels: vec![] }))
    );
    assert_eq!(
        show(answer_query(&store, &query("nth_irmin_chunk", vec![Param::Integer(1)]))),
        show(Ok(SqlResponse::IrminChunk { level: 2, timestamp: 22 }))
    );
    assert_eq!(
        show(answer_query(&store, &query("latest_irmin_chunk", vec![]))),
        show(Ok(SqlResponse::IrminChunk { level: 3, timestamp: 33 }))
    );
}

#[test]
fn query_with_an_unknown_name_is_refused_with_the_name() {
    let store = store();
    for name in ["", "select_blueprints", "select_blueprin", "SELECT_BLUEPRINT", "insert_blueprint"] {
        assert_eq!(
            show(answer_query(&store, &query(name, vec![Param::Integer(2)]))),
            show(Err(ServerError::UnknownMethod { method_name: String::from(name) }))
        );
    }
}

#[test]
fn query_with_a_parameter_that_cannot_be_read_is_refused_with_its_place() {
    let store = store();
    let refused = |params: Vec<Param>, index: usize| {
        assert_eq!(
            show(answer_query(&store, &query("select_blueprint_range", params))),
            show(Err(ServerError::BadParameterFormat { index }))
        );
    };
    refused(vec![], 0);
    refused(vec![Param::Integer(1)], 1);
    refused(vec![Param::Bytes(vec![1]), Param::Integer(1)], 0);
    refused(vec![Param::Integer(1), Param::Unreadable], 1);
    refused(vec![Param::Unreadable, Param::Unreadable], 0);
    refused(vec![Param::Integer(i64::from(i32::MAX) + 1), Param::Integer(1)], 0);
    refused(vec![Param::Integer(1), Param::Integer(i64::from(i32::MIN) - 1)], 1);
    assert_eq!(
        show(answer_query(
            &store,
            &query(
                "select_blueprint_range",
                vec![Param::Integer(i64::from(i32::MIN)), Param::Integer(i64::from(i32::MAX))]
            )
        )),
        show(Ok(SqlResponse::BlueprintRange {
            idandpayloads: vec![
                (1, b"payload 1".to_vec()),
                (2, b"payload 2".to_vec()),
                (3, b"payload 3".to_vec()),
            ]
        }))
    );
    assert_eq!(
        show(answer_query(&store, &query("select_block_with_hash", vec![Param::Integer(3)]))),
        show(Err(ServerError::BadParameterFormat { index: 0 }))
    );
    assert_eq!(
        show(answer_query(&store, &query("nth_irmin_chunk", vec![Param::Bytes(vec![])]))),
        show(Err(ServerError::BadParameterFormat { index: 0 }))
    );
    assert_eq!(
        show(answer_query(&store, &query("nth_irmin_chunk", vec![Param::Integer(i64::MAX)]))),
        show(Err(ServerError::InternalDatabaseError { error: StoreError::NotFound }))
    );
}

#[test]
fn query_that_finds_nothing_is_answered_with_the_error_of_the_store() {
    let store = store();
    for (name, params) in [
        ("select_blueprint", vec![Param::Integer(9)]),
        ("select_block_with_hash", vec![Param::Bytes(b"none".to_vec())]),
        ("select_pending_confirmation_with_level", vec![Param::Integer(1)]),
        ("get_smart_rollup_address", vec![]),
        ("get_latest_unapplied_kernel_upgrade", vec![]),
        ("current_migration", vec![]),
        ("block_storage_mode", vec![]),
        ("last_finalized_l2_level", vec![]),
        ("get_l1_l2_level_relationship", vec![]),
    ] {
        assert_eq!(
            show(answer_query(&store, &query(name, params))),
            show(Err(ServerError::InternalDatabaseError { error: StoreError::NotFound }))
        );
    }
}

#[test]
fn query_sees_what_the_store_holds_when_it_is_asked() {
    let mut store = store();
    let upgrade = KernelUpgrade {
        injected_before: 4,
        root_hash: b"root".to_vec(),
        activation_timestamp: 44,
        applied_before: None,
    };
    assert_eq!(upgrade.insert(&mut store), Ok(1));
    assert_eq!(
        show(answer_query(&store, &query("get_latest_unapplied_kernel_upgrade", vec![]))),
        show(Ok(SqlResponse::KernelUpgradeLatestUnapplied {
            injected_before: 4,
            root_hash: b"root".to_vec(),
            activation_timestamp: 44,
        }))
    );
    assert_eq!(KernelUpgrade::record_apply(&mut store, 5), Ok(1));
    assert_eq!(
        show(answer_query(&store, &query("kernel_upgrade_activation_levels", vec![]))),
        show(Ok(SqlResponse::ActivationLevels { activation_levels: vec![5] }))
    );
    assert_eq!(
        show(answer_query(
            &store,
            &query("find_latest_kernel_upgrade_injected_after", vec![Param::Integer(3)])
        )),
        show(Ok(SqlResponse::KernelUpgradeInjected {
            root_hash: b"root".to_vec(),
            activation_timestamp: 44,
        }))
    );
}

#[test]
fn errors_are_reported_with_their_status() {
    assert_eq!(
        ServerError::InternalDatabaseError { error: StoreError::NotFound }.status_code(),
        500
    );
    assert_eq!(
        ServerError::InternalDatabaseError { error: StoreError::ConstraintViolation }.status_code(),
        500
    );
    assert_eq!(ServerError::ConnectionError { reason: String::from("down") }.status_code(), 404);
    assert_eq!(ServerError::UnknownMethod { method_name: String::from("x") }.status_code(), 400);
    assert_eq!(ServerError::BadParameterFormat { index: 0 }.status_code(), 400);
}

#[test]
fn errors_say_what_went_wrong() {
    assert_eq!(StoreError::NotFound.message(), "Record not found");
    assert_eq!(StoreError::ConstraintViolation.message(), "UNIQUE constraint failed");
    assert_eq!(
        ServerError::InternalDatabaseError { error: StoreError::NotFound }.message(),
        "Internal database error:Record not found"
    );
    assert_eq!(
        ServerError::ConnectionError { reason: String::from("no such file") }.message(),
        "Error connecting to the database:no such file"
    );
    assert_eq!(
        ServerError::UnknownMethod { method_name: String::from("select_all") }.message(),
        "Unknow method:select_all"
    );
    assert_eq!(
        ServerError::BadParameterFormat { index: 1 }.message(),
        "Invalid parameters:a parameter is missing or is not of the kind that the operation takes"
    );
}

#[test]
fn query_is_refused_before_a_store_is_asked() {
    let show = |found: Option<ServerError>| format!("{found:?}");
    assert_eq!(
        show(refusal(&query("select_all", vec![Param::Integer(1)]))),
        show(Some(ServerError::UnknownMethod { method_name: String::from("select_all") }))
    );
    assert_eq!(
        show(refusal(&query("", vec![]))),
        show(Some(ServerError::UnknownMethod { method_name: String::new() }))
    );
    assert_eq!(
        show(refusal(&query("select_blueprint", vec![]))),
        show(Some(ServerError::BadParameterFormat { index: 0 }))
    );
    assert_eq!(
        show(refusal(&query("select_blueprint_range", vec![Param::Integer(1), Param::Bytes(vec![])]))),
        show(Some(ServerError::BadParameterFormat { index: 1 }))
    );
    assert_eq!(
        show(refusal(&query("select_block_with_hash", vec![Param::Unreadable]))),
        show(Some(ServerError::BadParameterFormat { index: 0 }))
    );
    for (name, params) in [
        ("select_blueprint", vec![Param::Integer(9)]),
        ("select_block_with_hash", vec![Param::Bytes(b"none".to_vec())]),
        ("nth_irmin_chunk", vec![Param::Integer(i64::MAX)]),
        ("current_migration", vec![]),
        ("get_history_mode", vec![Param::Unreadable]),
    ] {
        assert_eq!(show(refusal(&query(name, params))), show(None));
    }
}

#[test]
fn refusal_agrees_with_the_answer_of_a_store() {
    let store = store();
    for (name, params) in [
        ("select_blueprint", vec![Param::Integer(2)]),
        ("select_blueprint", vec![Param::Bytes(vec![2])]),
        ("select_blueprints", vec![Param::Integer(2)]),
        ("get_latest_context_hash", vec![]),
        ("list_l1_l1_finalized_levels_by_l1_levels", vec![Param::Integer(2)]),
    ] {
        let asked = query(name, params);
        let answer = answer_query(&store, &asked);
        match refusal(&asked) {
            Some(error) => assert_eq!(format!("{:?}", answer), format!("{:?}", Err::<SqlResponse, _>(error))),
            None => assert!(matches!(
                answer,
                Ok(_) | Err(ServerError::InternalDatabaseError { .. })
            )),
        }
    }
}

#[test]
fn database_errors_are_worded_in_one_place() {
    assert_eq!(internal_database_message("no such table"), "Internal database error:no such table");
    assert_eq!(internal_database_message(""), "Internal database error:");
    assert_eq!(
        internal_database_message(&StoreError::ConstraintViolation.message()),
        ServerError::InternalDatabaseError { error: StoreError::ConstraintViolation }.message()
    );
}
