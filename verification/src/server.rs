use vstd::prelude::*;
use vstd::string::StringExecFns;
use crate::block::Block;
use crate::block_storage_mode::BlockStorageMode;
use crate::blueprint::Blueprint;
use crate::context_hash::ContextHash;
use crate::delayed_transaction::DelayedTransaction;
use crate::error::StoreError;
use crate::irmin_chunk::IrminChunk;
use crate::kernel_upgrade::KernelUpgrade;
use crate::l1l2_finalized_level::L1L2FinalizedLevel;
use crate::l1l2_level_relationship::L1L2LevelRelationship;
use crate::metadata::Metadata;
use crate::migration::Migration;
use crate::pending_confirmation::PendingConfirmation;
use crate::sequencer_upgrade::SequencerUpgrade;
use crate::store::Store;
use crate::transaction::Transaction;

verus! {

/// One parameter of a query, as far as a query can use it.
#[derive(Debug)]
pub enum Param {
    /// A whole number.
    Integer(i64),
    /// A list of bytes.
    Bytes(Vec<u8>),
    /// Anything else.
    Unreadable,
}

/// A query: the name of an operation, and its parameters in their order.
#[derive(Debug)]
pub struct Sqlquery {
    pub name: String,
    pub params: Vec<Param>,
}

/// What a query is answered with: one shape for each kind of result.
#[derive(Debug)]
#[allow(inconsistent_fields)]
pub enum SqlResponse {
    Blueprint { payload: Vec<u8>, timestamp: i32 },
    BlueprintRange { idandpayloads: Vec<(i32, Vec<u8>)> },
    Block { block: Vec<u8> },
    BlockHash { hash: Vec<u8> },
    BlockId { id: i32 },
    PendingConfirmation { hash: Vec<u8> },
    PendingConfirmationCount { count: i64 },
    TransactionReceipt {
        block_hash: Vec<u8>,
        block_number: i32,
        index_: i32,
        hash: Vec<u8>,
        from_: Vec<u8>,
        to_: Option<Vec<u8>>,
        receipt_fields: Vec<u8>,
    },
    TransactionReceipts { receipts: Vec<(Vec<u8>, i32, Vec<u8>, Vec<u8>, Option<Vec<u8>>, Vec<u8>)> },
    TransactionObject {
        block_hash: Vec<u8>,
        block_number: i32,
        index_: i32,
        hash: Vec<u8>,
        from_: Vec<u8>,
        to_: Option<Vec<u8>>,
        object_fields: Vec<u8>,
    },
    TransactionObjects { objects: Vec<(i32, Vec<u8>, Vec<u8>, Option<Vec<u8>>, Vec<u8>)> },
    ContextHash { context_hash: Vec<u8> },
    ContextHashGet { id: i32, context_hash: Vec<u8> },
    MetadataSmartRollupAddress { address: String },
    MetadataHistoryMode { history_mode: String },
    ActivationLevels { activation_levels: Vec<i32> },
    KernelUpgradeLatestUnapplied { injected_before: i32, root_hash: Vec<u8>, activation_timestamp: i32 },
    KernelUpgradeInjected { root_hash: Vec<u8>, activation_timestamp: i32 },
    SequencerUpgradeLatestUnapplied {
        injected_before: i32,
        sequencer: Vec<u8>,
        pool_address: Vec<u8>,
        activation_timestamp: i64,
    },
    SequencerUpgradeInjected { sequencer: Vec<u8>, pool_address: Vec<u8>, activation_timestamp: i64 },
    DelayedTransactionSelect { payload: Vec<u8> },
    L1L2LevelRelationshipGet { latest_l2_level: i32, l1_level: i32 },
    L1L2FinalizedLevelGet { start_l2_level: i32, end_l2_level: i32 },
    L1L2FinalizedLevel { level: i32 },
    L1L2FinalizedLevelLast { l1_level: i32, start_l2_level: i32, end_l2_level: i32 },
    L1L2FinalizedLevelList { levels: Vec<(i32, i32, i32)> },
    IrminChunk { level: i32, timestamp: i32 },
    BlockStorageMode { legacy: i32 },
    CurrentMigrationId { id: i32 },
}

/// Why a query got no answer.
#[derive(Debug)]
pub enum ServerError {
    /// The operation failed on the store.
    InternalDatabaseError { error: StoreError },
    /// The store could not be reached.
    ConnectionError { reason: String },
    /// No operation has this name.
    UnknownMethod { method_name: String },
    /// The parameter at `index` is missing or is not of the kind that the operation takes.
    BadParameterFormat { index: usize },
}

/// The status that stands for an error that the server itself ran into.
pub const INTERNAL_SERVER_ERROR: u16 = 500;

/// The status that stands for something that was not found.
pub const NOT_FOUND: u16 = 404;

/// The status that stands for a request that cannot be understood.
pub const BAD_REQUEST: u16 = 400;

impl ServerError {
    /// The status with which the server reports this error.
    pub fn status_code(&self) -> (code: u16)
        ensures
            code == match self {
                ServerError::InternalDatabaseError { .. } => INTERNAL_SERVER_ERROR,
                ServerError::ConnectionError { .. } => NOT_FOUND,
                ServerError::UnknownMethod { .. } => BAD_REQUEST,
                ServerError::BadParameterFormat { .. } => BAD_REQUEST,
            },
    {
        match self {
            ServerError::InternalDatabaseError { .. } => INTERNAL_SERVER_ERROR,
            ServerError::ConnectionError { .. } => NOT_FOUND,
            ServerError::UnknownMethod { .. } => BAD_REQUEST,
            ServerError::BadParameterFormat { .. } => BAD_REQUEST,
        }
    }
}

/// What an error of the database says, in words, given what the database says of it.
pub open spec fn internal_database_text(detail: Seq<char>) -> Seq<char> {
    "Internal database error:"@ + detail
}

/// What an error of the database says, in words, given what the database says of it.
pub fn internal_database_message(detail: &str) -> (text: String)
    ensures
        text@ == internal_database_text(detail@),
{
    "Internal database error:".to_owned().concat(detail)
}

impl ServerError {
    /// What this error says, in words.
    pub open spec fn message_text(self) -> Seq<char> {
        match self {
            ServerError::InternalDatabaseError { error } => internal_database_text(
                error.message_text(),
            ),
            ServerError::ConnectionError { reason } => "Error connecting to the database:"@
                + reason@,
            ServerError::UnknownMethod { method_name } => "Unknow method:"@ + method_name@,
            ServerError::BadParameterFormat { .. } => "Invalid parameters:"@
                + "a parameter is missing or is not of the kind that the operation takes"@,
        }
    }

    /// What this error says, in words.
    pub fn message(&self) -> (text: String)
        ensures
            text@ == self.message_text(),
    {
        match self {
            ServerError::InternalDatabaseError { error } => {
                let detail: String = error.message();
                internal_database_message(detail.as_str())
            },
            ServerError::ConnectionError { reason } => {
                "Error connecting to the database:".to_owned().concat(reason.as_str())
            },
            ServerError::UnknownMethod { method_name } => {
                "Unknow method:".to_owned().concat(method_name.as_str())
            },
            ServerError::BadParameterFormat { .. } => {
                "Invalid parameters:".to_owned().concat(
                    "a parameter is missing or is not of the kind that the operation takes",
                )
            },
        }
    }
}

/// Whether two texts hold the same characters.
fn same_text(a: &str, b: &str) -> (same: bool)
    ensures
        same == (a@ == b@),
{
    let left: String = a.to_owned();
    let right: String = b.to_owned();
    left == right
}

/// The level that the parameter at `index` holds: a whole number that fits in 32 bits.
pub open spec fn level_at(params: Seq<Param>, index: int) -> Option<i32> {
    if 0 <= index < params.len() {
        match params[index] {
            Param::Integer(value) => if i32::MIN <= value <= i32::MAX {
                Some(value as i32)
            } else {
                None
            },
            _ => None,
        }
    } else {
        None
    }
}

/// The offset that the parameter at `index` holds: a whole number.
pub open spec fn offset_at(params: Seq<Param>, index: int) -> Option<i64> {
    if 0 <= index < params.len() {
        match params[index] {
            Param::Integer(value) => Some(value),
            _ => None,
        }
    } else {
        None
    }
}

/// The bytes that the parameter at `index` holds.
pub open spec fn bytes_at(params: Seq<Param>, index: int) -> Option<Vec<u8>> {
    if 0 <= index < params.len() {
        match params[index] {
            Param::Bytes(bytes) => Some(bytes),
            _ => None,
        }
    } else {
        None
    }
}

/// Reads the parameter at `index` as a level.
pub fn extract_level(params: &Vec<Param>, index: usize) -> (r: Result<i32, ServerError>)
    ensures
        r == match level_at(params@, index as int) {
            Some(level) => Ok::<i32, ServerError>(level),
            None => Err::<i32, ServerError>(ServerError::BadParameterFormat { index }),
        },
{
    if index < params.len() {
        match &params[index] {
            Param::Integer(value) => {
                if -0x8000_0000i64 <= *value && *value <= 0x7fff_ffffi64 {
                    Ok(*value as i32)
                } else {
                    Err(ServerError::BadParameterFormat { index })
                }
            },
            _ => Err(ServerError::BadParameterFormat { index }),
        }
    } else {
        Err(ServerError::BadParameterFormat { index })
    }
}

/// Reads the parameter at `index` as an offset.
pub fn extract_offset(params: &Vec<Param>, index: usize) -> (r: Result<i64, ServerError>)
    ensures
        r == match offset_at(params@, index as int) {
            Some(offset) => Ok::<i64, ServerError>(offset),
            None => Err::<i64, ServerError>(ServerError::BadParameterFormat { index }),
        },
{
    if index < params.len() {
        match &params[index] {
            Param::Integer(value) => Ok(*value),
            _ => Err(ServerError::BadParameterFormat { index }),
        }
    } else {
        Err(ServerError::BadParameterFormat { index })
    }
}

/// Reads the parameter at `index` as a list of bytes.
pub fn extract_bytes(params: &Vec<Param>, index: usize) -> (r: Result<&Vec<u8>, ServerError>)
    ensures
        match r {
            Ok(bytes) => bytes_at(params@, index as int) == Some(*bytes),
            Err(e) => bytes_at(params@, index as int) is None && e
                == (ServerError::BadParameterFormat { index }),
        },
{
    if index < params.len() {
        match &params[index] {
            Param::Bytes(bytes) => Ok(bytes),
            _ => Err(ServerError::BadParameterFormat { index }),
        }
    } else {
        Err(ServerError::BadParameterFormat { index })
    }
}

/// Whether `name` is the name of a query on blueprints and blocks.
pub open spec fn names_blueprint_or_block(name: Seq<char>) -> bool {
    ||| name == "select_blueprint"@
    ||| name == "select_blueprint_range"@
    ||| name == "select_block_with_level"@
    ||| name == "select_block_with_hash"@
    ||| name == "select_block_hash_of_number"@
    ||| name == "select_block_number_of_hash"@
}

/// `r` answers the query `name` on blueprints and blocks:
/// it is what the operation of that name returns for the parameters, as a response, or
/// says which parameter cannot be read.
pub open spec fn answers_blueprint_or_block(
    connection: &Store,
    name: Seq<char>,
    params: Seq<Param>,
    r: Result<SqlResponse, ServerError>,
) -> bool {
    if name == "select_blueprint"@ {
        match level_at(params, 0) {
            Some(id) => match r {
                Ok(SqlResponse::Blueprint { payload, timestamp }) => call_ensures(
                    Blueprint::select,
                    (connection, id),
                    Ok((payload, timestamp)),
                ),
                Err(ServerError::InternalDatabaseError { error }) => call_ensures(
                    Blueprint::select,
                    (connection, id),
                    Err(error),
                ),
                _ => false,
            },
            None => r == Err::<SqlResponse, ServerError>(
                ServerError::BadParameterFormat { index: 0 },
            ),
        }
    } else if name == "select_blueprint_range"@ {
        match level_at(params, 0) {
            Some(lowerlevel) => match level_at(params, 1) {
                Some(upperlevel) => match r {
                    Ok(SqlResponse::BlueprintRange { idandpayloads }) => call_ensures(
                        Blueprint::select_range,
                        (connection, lowerlevel, upperlevel),
                        Ok(idandpayloads),
                    ),
                    Err(ServerError::InternalDatabaseError { error }) => call_ensures(
                        Blueprint::select_range,
                        (connection, lowerlevel, upperlevel),
                        Err(error),
                    ),
                    _ => false,
                },
                None => r == Err::<SqlResponse, ServerError>(
                    ServerError::BadParameterFormat { index: 1 },
                ),
            },
            None => r == Err::<SqlResponse, ServerError>(
                ServerError::BadParameterFormat { index: 0 },
            ),
        }
    } else if name == "select_block_with_level"@ {
        match level_at(params, 0) {
            Some(id) => match r {
                Ok(SqlResponse::Block { block }) => call_ensures(
                    Block::select_with_level,
                    (connection, id),
                    Ok(block),
                ),
                Err(ServerError::InternalDatabaseError { error }) => call_ensures(
                    Block::select_with_level,
                    (connection, id),
                    Err(error),
                ),
                _ => false,
            },
            None => r == Err::<SqlResponse, ServerError>(
                ServerError::BadParameterFormat { index: 0 },
            ),
        }
    } else if name == "select_block_with_hash"@ {
        match bytes_at(params, 0) {
            Some(hash) => match r {
                Ok(SqlResponse::Block { block }) => call_ensures(
                    Block::select_with_hash,
                    (connection, &hash),
                    Ok(block),
                ),
                Err(ServerError::InternalDatabaseError { error }) => call_ensures(
                    Block::select_with_hash,
                    (connection, &hash),
                    Err(error),
                ),
                _ => false,
            },
            None => r == Err::<SqlResponse, ServerError>(
                ServerError::BadParameterFormat { index: 0 },
            ),
        }
    } else if name == "select_block_hash_of_number"@ {
        match level_at(params, 0) {
            Some(id) => match r {
                Ok(SqlResponse::BlockHash { hash }) => call_ensures(
                    Block::select_hash_of_number,
                    (connection, id),
                    Ok(hash),
                ),
                Err(ServerError::InternalDatabaseError { error }) => call_ensures(
                    Block::select_hash_of_number,
                    (connection, id),
                    Err(error),
                ),
                _ => false,
            },
            None => r == Err::<SqlResponse, ServerError>(
                ServerError::BadParameterFormat { index: 0 },
            ),
        }
    } else if name == "select_block_number_of_hash"@ {
        match bytes_at(params, 0) {
            Some(hash) => match r {
                Ok(SqlResponse::BlockId { id }) => call_ensures(
                    Block::select_number_of_hash,
                    (connection, &hash),
                    Ok(id),
                ),
                Err(ServerError::InternalDatabaseError { error }) => call_ensures(
                    Block::select_number_of_hash,
                    (connection, &hash),
                    Err(error),
                ),
                _ => false,
            },
            None => r == Err::<SqlResponse, ServerError>(
                ServerError::BadParameterFormat { index: 0 },
            ),
        }
    } else {
        false
    }
}

/// Answers a query on blueprints and blocks; `None` where `name` is not the name of one.
pub fn answer_blueprint_or_block(connection: &Store, name: &str, params: &Vec<Param>) -> (found: Option<
    Result<SqlResponse, ServerError>,
>)
    ensures
        match found {
            Some(r) => names_blueprint_or_block(name@) && answers_blueprint_or_block(connection, name@, params@, r),
            None => !names_blueprint_or_block(name@),
        },
{
    if same_text(name, "select_blueprint") {
        let id: i32 = match extract_level(params, 0) {
            Ok(value) => value,
            Err(e) => {
                return Some(Err(e));
            },
        };
        Some(
            match Blueprint::select(connection, id) {
                Ok((payload, timestamp)) => Ok(SqlResponse::Blueprint { payload, timestamp }),
                Err(error) => Err(ServerError::InternalDatabaseError { error }),
            },
        )
    } else if same_text(name, "select_blueprint_range") {
        let lowerlevel: i32 = match extract_level(params, 0) {
            Ok(value) => value,
            Err(e) => {
                return Some(Err(e));
            },
        };
        let upperlevel: i32 = match extract_level(params, 1) {
            Ok(value) => value,
            Err(e) => {
                return Some(Err(e));
            },
        };
        Some(
            match Blueprint::select_range(connection, lowerlevel, upperlevel) {
                Ok(idandpayloads) => Ok(SqlResponse::BlueprintRange { idandpayloads }),
                Err(error) => Err(ServerError::InternalDatabaseError { error }),
            },
        )
    } else if same_text(name, "select_block_with_level") {
        let id: i32 = match extract_level(params, 0) {
            Ok(value) => value,
            Err(e) => {
                return Some(Err(e));
            },
        };
        Some(
            match Block::select_with_level(connection, id) {
                Ok(block) => Ok(SqlResponse::Block { block }),
                Err(error) => Err(ServerError::InternalDatabaseError { error }),
            },
        )
    } else if same_text(name, "select_block_with_hash") {
        let hash: &Vec<u8> = match extract_bytes(params, 0) {
            Ok(value) => value,
            Err(e) => {
                return Some(Err(e));
            },
        };
        Some(
            match Block::select_with_hash(connection, hash) {
                Ok(block) => Ok(SqlResponse::Block { block }),
                Err(error) => Err(ServerError::InternalDatabaseError { error }),
            },
        )
    } else if same_text(name, "select_block_hash_of_number") {
        let id: i32 = match extract_level(params, 0) {
            Ok(value) => value,
            Err(e) => {
                return Some(Err(e));
            },
        };
        Some(
            match Block::select_hash_of_number(connection, id) {
                Ok(hash) => Ok(SqlResponse::BlockHash { hash }),
                Err(error) => Err(ServerError::InternalDatabaseError { error }),
            },
        )
    } else if same_text(name, "select_block_number_of_hash") {
        let hash: &Vec<u8> = match extract_bytes(params, 0) {
            Ok(value) => value,
            Err(e) => {
                return Some(Err(e));
            },
        };
        Some(
            match Block::select_number_of_hash(connection, hash) {
                Ok(id) => Ok(SqlResponse::BlockId { id }),
                Err(error) => Err(ServerError::InternalDatabaseError { error }),
            },
        )
    } else {
        None
    }
}

/// Whether `name` is the name of a query on pending confirmations, transactions, context hashes and settings.
pub open spec fn names_transaction_or_context(name: Seq<char>) -> bool {
    ||| name == "select_pending_confirmation_with_level"@
    ||| name == "count_pending_confirmations"@
    ||| name == "select_transaction_receipt"@
    ||| name == "select_transaction_receipts_from_block_number"@
    ||| name == "select_transaction_object"@
    ||| name == "select_transaction_objects_from_block_number"@
    ||| name == "select_context_hash"@
    ||| name == "get_latest_context_hash"@
    ||| name == "get_earliest_context_hash"@
    ||| name == "get_smart_rollup_address"@
    ||| name == "get_history_mode"@
}

/// `r` answers the query `name` on pending confirmations, transactions, context hashes and settings:
/// it is what the operation of that name returns for the parameters, as a response, or
/// says which parameter cannot be read.
pub open spec fn answers_transaction_or_context(
    connection: &Store,
    name: Seq<char>,
    params: Seq<Param>,
    r: Result<SqlResponse, ServerError>,
) -> bool {
    if name == "select_pending_confirmation_with_level"@ {
        match level_at(params, 0) {
            Some(level) => match r {
                Ok(SqlResponse::PendingConfirmation { hash }) => call_ensures(
                    PendingConfirmation::select_with_level,
                    (connection, level),
                    Ok(hash),
                ),
                Err(ServerError::InternalDatabaseError { error }) => call_ensures(
                    PendingConfirmation::select_with_level,
                    (connection, level),
                    Err(error),
                ),
                _ => false,
            },
            None => r == Err::<SqlResponse, ServerError>(
                ServerError::BadParameterFormat { index: 0 },
            ),
        }
    } else if name == "count_pending_confirmations"@ {
        match r {
            Ok(SqlResponse::PendingConfirmationCount { count }) => call_ensures(
                PendingConfirmation::count,
                (connection,),
                Ok(count),
            ),
            Err(ServerError::InternalDatabaseError { error }) => call_ensures(
                PendingConfirmation::count,
                (connection,),
                Err(error),
            ),
            _ => false,
        }
    } else if name == "select_transaction_receipt"@ {
        match bytes_at(params, 0) {
            Some(queried) => match r {
                Ok(SqlResponse::TransactionReceipt { block_hash, block_number, index_, hash, from_, to_, receipt_fields }) => call_ensures(
                    Transaction::select_receipt,
                    (connection, &queried),
                    Ok((block_hash, block_number, index_, hash, from_, to_, receipt_fields)),
                ),
                Err(ServerError::InternalDatabaseError { error }) => call_ensures(
                    Transaction::select_receipt,
                    (connection, &queried),
                    Err(error),
                ),
                _ => false,
            },
            None => r == Err::<SqlResponse, ServerError>(
                ServerError::BadParameterFormat { index: 0 },
            ),
        }
    } else if name == "select_transaction_receipts_from_block_number"@ {
        match level_at(params, 0) {
            Some(block_number) => match r {
                Ok(SqlResponse::TransactionReceipts { receipts }) => call_ensures(
                    Transaction::select_receipts_from_block_number,
                    (connection, block_number),
                    Ok(receipts),
                ),
                Err(ServerError::InternalDatabaseError { error }) => call_ensures(
                    Transaction::select_receipts_from_block_number,
                    (connection, block_number),
                    Err(error),
                ),
                _ => false,
            },
            None => r == Err::<SqlResponse, ServerError>(
                ServerError::BadParameterFormat { index: 0 },
            ),
        }
    } else if name == "select_transaction_object"@ {
        match bytes_at(params, 0) {
            Some(queried) => match r {
                Ok(SqlResponse::TransactionObject { block_hash, block_number, index_, hash, from_, to_, object_fields }) => call_ensures(
                    Transaction::select_object,
                    (connection, &queried),
                    Ok((block_hash, block_number, index_, hash, from_, to_, object_fields)),
                ),
                Err(ServerError::InternalDatabaseError { error }) => call_ensures(
                    Transaction::select_object,
                    (connection, &queried),
                    Err(error),
                ),
                _ => false,
            },
            None => r == Err::<SqlResponse, ServerError>(
                ServerError::BadParameterFormat { index: 0 },
            ),
        }
    } else if name == "select_transaction_objects_from_block_number"@ {
        match level_at(params, 0) {
            Some(block_number) => match r {
                Ok(SqlResponse::TransactionObjects { objects }) => call_ensures(
                    Transaction::select_objects_from_block_number,
                    (connection, block_number),
                    Ok(objects),
                ),
                Err(ServerError::InternalDatabaseError { error }) => call_ensures(
                    Transaction::select_objects_from_block_number,
                    (connection, block_number),
                    Err(error),
                ),
                _ => false,
            },
            None => r == Err::<SqlResponse, ServerError>(
                ServerError::BadParameterFormat { index: 0 },
            ),
        }
    } else if name == "select_context_hash"@ {
        match level_at(params, 0) {
            Some(id) => match r {
                Ok(SqlResponse::ContextHash { context_hash }) => call_ensures(
                    ContextHash::select,
                    (connection, id),
                    Ok(context_hash),
                ),
                Err(ServerError::InternalDatabaseError { error }) => call_ensures(
                    ContextHash::select,
                    (connection, id),
                    Err(error),
                ),
                _ => false,
            },
            None => r == Err::<SqlResponse, ServerError>(
                ServerError::BadParameterFormat { index: 0 },
            ),
        }
    } else if name == "get_latest_context_hash"@ {
        match r {
            Ok(SqlResponse::ContextHashGet { id, context_hash }) => call_ensures(
                ContextHash::get_latest,
                (connection,),
                Ok((id, context_hash)),
            ),
            Err(ServerError::InternalDatabaseError { error }) => call_ensures(
                ContextHash::get_latest,
                (connection,),
                Err(error),
            ),
            _ => false,
        }
    } else if name == "get_earliest_context_hash"@ {
        match r {
            Ok(SqlResponse::ContextHashGet { id, context_hash }) => call_ensures(
                ContextHash::get_earliest,
                (connection,),
                Ok((id, context_hash)),
            ),
            Err(ServerError::InternalDatabaseError { error }) => call_ensures(
                ContextHash::get_earliest,
                (connection,),
                Err(error),
            ),
            _ => false,
        }
    } else if name == "get_smart_rollup_address"@ {
        match r {
            Ok(SqlResponse::MetadataSmartRollupAddress { address }) => call_ensures(
                Metadata::get_smart_rollup_address,
                (connection,),
                Ok(address),
            ),
            Err(ServerError::InternalDatabaseError { error }) => call_ensures(
                Metadata::get_smart_rollup_address,
                (connection,),
                Err(error),
            ),
            _ => false,
        }
    } else if name == "get_history_mode"@ {
        match r {
            Ok(SqlResponse::MetadataHistoryMode { history_mode }) => call_ensures(
                Metadata::get_history_mode,
                (connection,),
                Ok(history_mode),
            ),
            Err(ServerError::InternalDatabaseError { error }) => call_ensures(
                Metadata::get_history_mode,
                (connection,),
                Err(error),
            ),
            _ => false,
        }
    } else {
        false
    }
}

/// Answers a query on pending confirmations, transactions, context hashes and settings; `None` where `name` is not the name of one.
pub fn answer_transaction_or_context(connection: &Store, name: &str, params: &Vec<Param>) -> (found: Option<
    Result<SqlResponse, ServerError>,
>)
    ensures
        match found {
            Some(r) => names_transaction_or_context(name@) && answers_transaction_or_context(connection, name@, params@, r),
            None => !names_transaction_or_context(name@),
        },
{
    if same_text(name, "select_pending_confirmation_with_level") {
        let level: i32 = match extract_level(params, 0) {
            Ok(value) => value,
            Err(e) => {
                return Some(Err(e));
            },
        };
        Some(
            match PendingConfirmation::select_with_level(connection, level) {
                Ok(hash) => Ok(SqlResponse::PendingConfirmation { hash }),
                Err(error) => Err(ServerError::InternalDatabaseError { error }),
            },
        )
    } else if same_text(name, "count_pending_confirmations") {
        Some(
            match PendingConfirmation::count(connection) {
                Ok(count) => Ok(SqlResponse::PendingConfirmationCount { count }),
                Err(error) => Err(ServerError::InternalDatabaseError { error }),
            },
        )
    } else if same_text(name, "select_transaction_receipt") {
        let queried: &Vec<u8> = match extract_bytes(params, 0) {
            Ok(value) => value,
            Err(e) => {
                return Some(Err(e));
            },
        };
        Some(
            match Transaction::select_receipt(connection, queried) {
                Ok((block_hash, block_number, index_, hash, from_, to_, receipt_fields)) => Ok(SqlResponse::TransactionReceipt { block_hash, block_number, index_, hash, from_, to_, receipt_fields }),
                Err(error) => Err(ServerError::InternalDatabaseError { error }),
            },
        )
    } else if same_text(name, "select_transaction_receipts_from_block_number") {
        let block_number: i32 = match extract_level(params, 0) {
            Ok(value) => value,
            Err(e) => {
                return Some(Err(e));
            },
        };
        Some(
            match Transaction::select_receipts_from_block_number(connection, block_number) {
                Ok(receipts) => Ok(SqlResponse::TransactionReceipts { receipts }),
                Err(error) => Err(ServerError::InternalDatabaseError { error }),
            },
        )
    } else if same_text(name, "select_transaction_object") {
        let queried: &Vec<u8> = match extract_bytes(params, 0) {
            Ok(value) => value,
            Err(e) => {
                return Some(Err(e));
            },
        };
        Some(
            match Transaction::select_object(connection, queried) {
                Ok((block_hash, block_number, index_, hash, from_, to_, object_fields)) => Ok(SqlResponse::TransactionObject { block_hash, block_number, index_, hash, from_, to_, object_fields }),
                Err(error) => Err(ServerError::InternalDatabaseError { error }),
            },
        )
    } else if same_text(name, "select_transaction_objects_from_block_number") {
        let block_number: i32 = match extract_level(params, 0) {
            Ok(value) => value,
            Err(e) => {
                return Some(Err(e));
            },
        };
        Some(
            match Transaction::select_objects_from_block_number(connection, block_number) {
                Ok(objects) => Ok(SqlResponse::TransactionObjects { objects }),
                Err(error) => Err(ServerError::InternalDatabaseError { error }),
            },
        )
    } else if same_text(name, "select_context_hash") {
        let id: i32 = match extract_level(params, 0) {
            Ok(value) => value,
            Err(e) => {
                return Some(Err(e));
            },
        };
        Some(
            match ContextHash::select(connection, id) {
                Ok(context_hash) => Ok(SqlResponse::ContextHash { context_hash }),
                Err(error) => Err(ServerError::InternalDatabaseError { error }),
            },
        )
    } else if same_text(name, "get_latest_context_hash") {
        Some(
            match ContextHash::get_latest(connection) {
                Ok((id, context_hash)) => Ok(SqlResponse::ContextHashGet { id, context_hash }),
                Err(error) => Err(ServerError::InternalDatabaseError { error }),
            },
        )
    } else if same_text(name, "get_earliest_context_hash") {
        Some(
            match ContextHash::get_earliest(connection) {
                Ok((id, context_hash)) => Ok(SqlResponse::ContextHashGet { id, context_hash }),
                Err(error) => Err(ServerError::InternalDatabaseError { error }),
            },
        )
    } else if same_text(name, "get_smart_rollup_address") {
        Some(
            match Metadata::get_smart_rollup_address(connection) {
                Ok(address) => Ok(SqlResponse::MetadataSmartRollupAddress { address }),
                Err(error) => Err(ServerError::InternalDatabaseError { error }),
            },
        )
    } else if same_text(name, "get_history_mode") {
        Some(
            match Metadata::get_history_mode(connection) {
                Ok(history_mode) => Ok(SqlResponse::MetadataHistoryMode { history_mode }),
                Err(error) => Err(ServerError::InternalDatabaseError { error }),
            },
        )
    } else {
        None
    }
}

/// Whether `name` is the name of a query on kernel and sequencer upgrades.
pub open spec fn names_upgrade(name: Seq<char>) -> bool {
    ||| name == "kernel_upgrade_activation_levels"@
    ||| name == "get_latest_unapplied_kernel_upgrade"@
    ||| name == "find_kernel_upgrade_injected_before"@
    ||| name == "find_latest_kernel_upgrade_injected_after"@
    ||| name == "sequencer_upgrade_activation_levels"@
    ||| name == "get_latest_unapplied_sequencer_upgrade"@
    ||| name == "find_sequencer_upgrade_injected_before"@
    ||| name == "find_latest_sequencer_upgrade_injected_after"@
}

/// `r` answers the query `name` on kernel and sequencer upgrades:
/// it is what the operation of that name returns for the parameters, as a response, or
/// says which parameter cannot be read.
pub open spec fn answers_upgrade(
    connection: &Store,
    name: Seq<char>,
    params: Seq<Param>,
    r: Result<SqlResponse, ServerError>,
) -> bool {
    if name == "kernel_upgrade_activation_levels"@ {
        match r {
            Ok(SqlResponse::ActivationLevels { activation_levels }) => call_ensures(
                KernelUpgrade::activation_levels,
                (connection,),
                Ok(activation_levels),
            ),
            Err(ServerError::InternalDatabaseError { error }) => call_ensures(
                KernelUpgrade::activation_levels,
                (connection,),
                Err(error),
            ),
            _ => false,
        }
    } else if name == "get_latest_unapplied_kernel_upgrade"@ {
        match r {
            Ok(SqlResponse::KernelUpgradeLatestUnapplied { injected_before, root_hash, activation_timestamp }) => call_ensures(
                KernelUpgrade::get_latest_unapplied,
                (connection,),
                Ok((injected_before, root_hash, activation_timestamp)),
            ),
            Err(ServerError::InternalDatabaseError { error }) => call_ensures(
                KernelUpgrade::get_latest_unapplied,
                (connection,),
                Err(error),
            ),
            _ => false,
        }
    } else if name == "find_kernel_upgrade_injected_before"@ {
        match level_at(params, 0) {
            Some(injected_before) => match r {
                Ok(SqlResponse::KernelUpgradeInjected { root_hash, activation_timestamp }) => call_ensures(
                    KernelUpgrade::find_injected_before,
                    (connection, injected_before),
                    Ok((root_hash, activation_timestamp)),
                ),
                Err(ServerError::InternalDatabaseError { error }) => call_ensures(
                    KernelUpgrade::find_injected_before,
                    (connection, injected_before),
                    Err(error),
                ),
                _ => false,
            },
            None => r == Err::<SqlResponse, ServerError>(
                ServerError::BadParameterFormat { index: 0 },
            ),
        }
    } else if name == "find_latest_kernel_upgrade_injected_after"@ {
        match level_at(params, 0) {
            Some(injected_after) => match r {
                Ok(SqlResponse::KernelUpgradeInjected { root_hash, activation_timestamp }) => call_ensures(
                    KernelUpgrade::find_latest_injected_after,
                    (connection, injected_after),
                    Ok((root_hash, activation_timestamp)),
                ),
                Err(ServerError::InternalDatabaseError { error }) => call_ensures(
                    KernelUpgrade::find_latest_injected_after,
                    (connection, injected_after),
                    Err(error),
                ),
                _ => false,
            },
            None => r == Err::<SqlResponse, ServerError>(
                ServerError::BadParameterFormat { index: 0 },
            ),
        }
    } else if name == "sequencer_upgrade_activation_levels"@ {
        match r {
            Ok(SqlResponse::ActivationLevels { activation_levels }) => call_ensures(
                SequencerUpgrade::activation_levels,
                (connection,),
                Ok(activation_levels),
            ),
            Err(ServerError::InternalDatabaseError { error }) => call_ensures(
                SequencerUpgrade::activation_levels,
                (connection,),
                Err(error),
            ),
            _ => false,
        }
    } else if name == "get_latest_unapplied_sequencer_upgrade"@ {
        match r {
            Ok(SqlResponse::SequencerUpgradeLatestUnapplied { injected_before, sequencer, pool_address, activation_timestamp }) => call_ensures(
                SequencerUpgrade::get_latest_unapplied,
                (connection,),
                Ok((injected_before, sequencer, pool_address, activation_timestamp)),
            ),
            Err(ServerError::InternalDatabaseError { error }) => call_ensures(
                SequencerUpgrade::get_latest_unapplied,
                (connection,),
                Err(error),
            ),
            _ => false,
        }
    } else if name == "find_sequencer_upgrade_injected_before"@ {
        match level_at(params, 0) {
            Some(injected_before) => match r {
                Ok(SqlResponse::SequencerUpgradeInjected { sequencer, pool_address, activation_timestamp }) => call_ensures(
                    SequencerUpgrade::find_injected_before,
                    (connection, injected_before),
                    Ok((sequencer, pool_address, activation_timestamp)),
                ),
                Err(ServerError::InternalDatabaseError { error }) => call_ensures(
                    SequencerUpgrade::find_injected_before,
                    (connection, injected_before),
                    Err(error),
                ),
                _ => false,
            },
            None => r == Err::<SqlResponse, ServerError>(
                ServerError::BadParameterFormat { index: 0 },
            ),
        }
    } else if name == "find_latest_sequencer_upgrade_injected_after"@ {
        match level_at(params, 0) {
            Some(injected_after) => match r {
                Ok(SqlResponse::SequencerUpgradeInjected { sequencer, pool_address, activation_timestamp }) => call_ensures(
                    SequencerUpgrade::find_latest_injected_after,
                    (connection, injected_after),
                    Ok((sequencer, pool_address, activation_timestamp)),
                ),
                Err(ServerError::InternalDatabaseError { error }) => call_ensures(
                    SequencerUpgrade::find_latest_injected_after,
                    (connection, injected_after),
                    Err(error),
                ),
                _ => false,
            },
            None => r == Err::<SqlResponse, ServerError>(
                ServerError::BadParameterFormat { index: 0 },
            ),
        }
    } else {
        false
    }
}

/// Answers a query on kernel and sequencer upgrades; `None` where `name` is not the name of one.
pub fn answer_upgrade(connection: &Store, name: &str, params: &Vec<Param>) -> (found: Option<
    Result<SqlResponse, ServerError>,
>)
    ensures
        match found {
            Some(r) => names_upgrade(name@) && answers_upgrade(connection, name@, params@, r),
            None => !names_upgrade(name@),
        },
{
    if same_text(name, "kernel_upgrade_activation_levels") {
        Some(
            match KernelUpgrade::activation_levels(connection) {
                Ok(activation_levels) => Ok(SqlResponse::ActivationLevels { activation_levels }),
                Err(error) => Err(ServerError::InternalDatabaseError { error }),
            },
        )
    } else if same_text(name, "get_latest_unapplied_kernel_upgrade") {
        Some(
            match KernelUpgrade::get_latest_unapplied(connection) {
                Ok((injected_before, root_hash, activation_timestamp)) => Ok(SqlResponse::KernelUpgradeLatestUnapplied { injected_before, root_hash, activation_timestamp }),
                Err(error) => Err(ServerError::InternalDatabaseError { error }),
            },
        )
    } else if same_text(name, "find_kernel_upgrade_injected_before") {
        let injected_before: i32 = match extract_level(params, 0) {
            Ok(value) => value,
            Err(e) => {
                return Some(Err(e));
            },
        };
        Some(
            match KernelUpgrade::find_injected_before(connection, injected_before) {
                Ok((root_hash, activation_timestamp)) => Ok(SqlResponse::KernelUpgradeInjected { root_hash, activation_timestamp }),
                Err(error) => Err(ServerError::InternalDatabaseError { error }),
            },
        )
    } else if same_text(name, "find_latest_kernel_upgrade_injected_after") {
        let injected_after: i32 = match extract_level(params, 0) {
            Ok(value) => value,
            Err(e) => {
                return Some(Err(e));
            },
        };
        Some(
            match KernelUpgrade::find_latest_injected_after(connection, injected_after) {
                Ok((root_hash, activation_timestamp)) => Ok(SqlResponse::KernelUpgradeInjected { root_hash, activation_timestamp }),
                Err(error) => Err(ServerError::InternalDatabaseError { error }),
            },
        )
    } else if same_text(name, "sequencer_upgrade_activation_levels") {
        Some(
            match SequencerUpgrade::activation_levels(connection) {
                Ok(activation_levels) => Ok(SqlResponse::ActivationLevels { activation_levels }),
                Err(error) => Err(ServerError::InternalDatabaseError { error }),
            },
        )
    } else if same_text(name, "get_latest_unapplied_sequencer_upgrade") {
        Some(
            match SequencerUpgrade::get_latest_unapplied(connection) {
                Ok((injected_before, sequencer, pool_address, activation_timestamp)) => Ok(SqlResponse::SequencerUpgradeLatestUnapplied { injected_before, sequencer, pool_address, activation_timestamp }),
                Err(error) => Err(ServerError::InternalDatabaseError { error }),
            },
        )
    } else if same_text(name, "find_sequencer_upgrade_injected_before") {
        let injected_before: i32 = match extract_level(params, 0) {
            Ok(value) => value,
            Err(e) => {
                return Some(Err(e));
            },
        };
        Some(
            match SequencerUpgrade::find_injected_before(connection, injected_before) {
                Ok((sequencer, pool_address, activation_timestamp)) => Ok(SqlResponse::SequencerUpgradeInjected { sequencer, pool_address, activation_timestamp }),
                Err(error) => Err(ServerError::InternalDatabaseError { error }),
            },
        )
    } else if same_text(name, "find_latest_sequencer_upgrade_injected_after") {
        let injected_after: i32 = match extract_level(params, 0) {
            Ok(value) => value,
            Err(e) => {
                return Some(Err(e));
            },
        };
        Some(
            match SequencerUpgrade::find_latest_injected_after(connection, injected_after) {
                Ok((sequencer, pool_address, activation_timestamp)) => Ok(SqlResponse::SequencerUpgradeInjected { sequencer, pool_address, activation_timestamp }),
                Err(error) => Err(ServerError::InternalDatabaseError { error }),
            },
        )
    } else {
        None
    }
}

/// Whether `name` is the name of a query on delayed transactions, the levels of the two layers, chunks, storage mode and migrations.
pub open spec fn names_bridge(name: Seq<char>) -> bool {
    ||| name == "select_delayed_transaction_at_level"@
    ||| name == "select_delayed_transaction_at_hash"@
    ||| name == "get_l1_l2_level_relationship"@
    ||| name == "get_l1_l2_finalized_level"@
    ||| name == "last_finalized_l2_level"@
    ||| name == "last_l1_l2_finalized_level"@
    ||| name == "find_finalized_l1_level"@
    ||| name == "list_l1_l1_finalized_levels_by_l2_levels"@
    ||| name == "list_l1_l1_finalized_levels_by_l1_levels"@
    ||| name == "nth_irmin_chunk"@
    ||| name == "latest_irmin_chunk"@
    ||| name == "block_storage_mode"@
    ||| name == "current_migration"@
}

/// `r` answers the query `name` on delayed transactions, the levels of the two layers, chunks, storage mode and migrations:
/// it is what the operation of that name returns for the parameters, as a response, or
/// says which parameter cannot be read.
pub open spec fn answers_bridge(
    connection: &Store,
    name: Seq<char>,
    params: Seq<Param>,
    r: Result<SqlResponse, ServerError>,
) -> bool {
    if name == "select_delayed_transaction_at_level"@ {
        match level_at(params, 0) {
            Some(injected_before) => match r {
                Ok(SqlResponse::DelayedTransactionSelect { payload }) => call_ensures(
                    DelayedTransaction::select_at_level,
                    (connection, injected_before),
                    Ok(payload),
                ),
                Err(ServerError::InternalDatabaseError { error }) => call_ensures(
                    DelayedTransaction::select_at_level,
                    (connection, injected_before),
                    Err(error),
                ),
                _ => false,
            },
            None => r == Err::<SqlResponse, ServerError>(
                ServerError::BadParameterFormat { index: 0 },
            ),
        }
    } else if name == "select_delayed_transaction_at_hash"@ {
        match bytes_at(params, 0) {
            Some(hash) => match r {
                Ok(SqlResponse::DelayedTransactionSelect { payload }) => call_ensures(
                    DelayedTransaction::select_at_hash,
                    (connection, &hash),
                    Ok(payload),
                ),
                Err(ServerError::InternalDatabaseError { error }) => call_ensures(
                    DelayedTransaction::select_at_hash,
                    (connection, &hash),
                    Err(error),
                ),
                _ => false,
            },
            None => r == Err::<SqlResponse, ServerError>(
                ServerError::BadParameterFormat { index: 0 },
            ),
        }
    } else if name == "get_l1_l2_level_relationship"@ {
        match r {
            Ok(SqlResponse::L1L2LevelRelationshipGet { latest_l2_level, l1_level }) => call_ensures(
                L1L2LevelRelationship::get,
                (connection,),
                Ok((latest_l2_level, l1_level)),
            ),
            Err(ServerError::InternalDatabaseError { error }) => call_ensures(
                L1L2LevelRelationship::get,
                (connection,),
                Err(error),
            ),
            _ => false,
        }
    } else if name == "get_l1_l2_finalized_level"@ {
        match level_at(params, 0) {
            Some(l1_level) => match r {
                Ok(SqlResponse::L1L2FinalizedLevelGet { start_l2_level, end_l2_level }) => call_ensures(
                    L1L2FinalizedLevel::get,
                    (connection, l1_level),
                    Ok((start_l2_level, end_l2_level)),
                ),
                Err(ServerError::InternalDatabaseError { error }) => call_ensures(
                    L1L2FinalizedLevel::get,
                    (connection, l1_level),
                    Err(error),
                ),
                _ => false,
            },
            None => r == Err::<SqlResponse, ServerError>(
                ServerError::BadParameterFormat { index: 0 },
            ),
        }
    } else if name == "last_finalized_l2_level"@ {
        match r {
            Ok(SqlResponse::L1L2FinalizedLevel { level }) => call_ensures(
                L1L2FinalizedLevel::last_l2_level,
                (connection,),
                Ok(level),
            ),
            Err(ServerError::InternalDatabaseError { error }) => call_ensures(
                L1L2FinalizedLevel::last_l2_level,
                (connection,),
                Err(error),
            ),
            _ => false,
        }
    } else if name == "last_l1_l2_finalized_level"@ {
        match r {
            Ok(SqlResponse::L1L2FinalizedLevelLast { l1_level, start_l2_level, end_l2_level }) => call_ensures(
                L1L2FinalizedLevel::last,
                (connection,),
                Ok((l1_level, start_l2_level, end_l2_level)),
            ),
            Err(ServerError::InternalDatabaseError { error }) => call_ensures(
                L1L2FinalizedLevel::last,
                (connection,),
                Err(error),
            ),
            _ => false,
        }
    } else if name == "find_finalized_l1_level"@ {
        match level_at(params, 0) {
            Some(l2_level) => match r {
                Ok(SqlResponse::L1L2FinalizedLevel { level }) => call_ensures(
                    L1L2FinalizedLevel::find_l1_level,
                    (connection, l2_level),
                    Ok(level),
                ),
                Err(ServerError::InternalDatabaseError { error }) => call_ensures(
                    L1L2FinalizedLevel::find_l1_level,
                    (connection, l2_level),
                    Err(error),
                ),
                _ => false,
            },
            None => r == Err::<SqlResponse, ServerError>(
                ServerError::BadParameterFormat { index: 0 },
            ),
        }
    } else if name == "list_l1_l1_finalized_levels_by_l2_levels"@ {
        match level_at(params, 0) {
            Some(start_l2) => match level_at(params, 1) {
                Some(end_l2) => match r {
                    Ok(SqlResponse::L1L2FinalizedLevelList { levels }) => call_ensures(
                        L1L2FinalizedLevel::list_by_l2_levels,
                        (connection, start_l2, end_l2),
                        Ok(levels),
                    ),
                    Err(ServerError::InternalDatabaseError { error }) => call_ensures(
                        L1L2FinalizedLevel::list_by_l2_levels,
                        (connection, start_l2, end_l2),
                        Err(error),
                    ),
                    _ => false,
                },
                None => r == Err::<SqlResponse, ServerError>(
                    ServerError::BadParameterFormat { index: 1 },
                ),
            },
            None => r == Err::<SqlResponse, ServerError>(
                ServerError::BadParameterFormat { index: 0 },
            ),
        }
    } else if name == "list_l1_l1_finalized_levels_by_l1_levels"@ {
        match level_at(params, 0) {
            Some(start_l1) => match level_at(params, 1) {
                Some(end_l1) => match r {
                    Ok(SqlResponse::L1L2FinalizedLevelList { levels }) => call_ensures(
                        L1L2FinalizedLevel::list_by_l1_levels,
                        (connection, start_l1, end_l1),
                        Ok(levels),
                    ),
                    Err(ServerError::InternalDatabaseError { error }) => call_ensures(
                        L1L2FinalizedLevel::list_by_l1_levels,
                        (connection, start_l1, end_l1),
                        Err(error),
                    ),
                    _ => false,
                },
                None => r == Err::<SqlResponse, ServerError>(
                    ServerError::BadParameterFormat { index: 1 },
                ),
            },
            None => r == Err::<SqlResponse, ServerError>(
                ServerError::BadParameterFormat { index: 0 },
            ),
        }
    } else if name == "nth_irmin_chunk"@ {
        match offset_at(params, 0) {
            Some(offset) => match r {
                Ok(SqlResponse::IrminChunk { level, timestamp }) => call_ensures(
                    IrminChunk::nth,
                    (connection, offset),
                    Ok((level, timestamp)),
                ),
                Err(ServerError::InternalDatabaseError { error }) => call_ensures(
                    IrminChunk::nth,
                    (connection, offset),
                    Err(error),
                ),
                _ => false,
            },
            None => r == Err::<SqlResponse, ServerError>(
                ServerError::BadParameterFormat { index: 0 },
            ),
        }
    } else if name == "latest_irmin_chunk"@ {
        match r {
            Ok(SqlResponse::IrminChunk { level, timestamp }) => call_ensures(
                IrminChunk::latest,
                (connection,),
                Ok((level, timestamp)),
            ),
            Err(ServerError::InternalDatabaseError { error }) => call_ensures(
                IrminChunk::latest,
                (connection,),
                Err(error),
            ),
            _ => false,
        }
    } else if name == "block_storage_mode"@ {
        match r {
            Ok(SqlResponse::BlockStorageMode { legacy }) => call_ensures(
                BlockStorageMode::legacy,
                (connection,),
                Ok(legacy),
            ),
            Err(ServerError::InternalDatabaseError { error }) => call_ensures(
                BlockStorageMode::legacy,
                (connection,),
                Err(error),
            ),
            _ => false,
        }
    } else if name == "current_migration"@ {
        match r {
            Ok(SqlResponse::CurrentMigrationId { id }) => call_ensures(
                Migration::current_migration,
                (connection,),
                Ok(id),
            ),
            Err(ServerError::InternalDatabaseError { error }) => call_ensures(
                Migration::current_migration,
                (connection,),
                Err(error),
            ),
            _ => false,
        }
    } else {
        false
    }
}

/// Answers a query on delayed transactions, the levels of the two layers, chunks, storage mode and migrations; `None` where `name` is not the name of one.
pub fn answer_bridge(connection: &Store, name: &str, params: &Vec<Param>) -> (found: Option<
    Result<SqlResponse, ServerError>,
>)
    ensures
        match found {
            Some(r) => names_bridge(name@) && answers_bridge(connection, name@, params@, r),
            None => !names_bridge(name@),
        },
{
    if same_text(name, "select_delayed_transaction_at_level") {
        let injected_before: i32 = match extract_level(params, 0) {
            Ok(value) => value,
            Err(e) => {
                return Some(Err(e));
            },
        };
        Some(
            match DelayedTransaction::select_at_level(connection, injected_before) {
                Ok(payload) => Ok(SqlResponse::DelayedTransactionSelect { payload }),
                Err(error) => Err(ServerError::InternalDatabaseError { error }),
            },
        )
    } else if same_text(name, "select_delayed_transaction_at_hash") {
        let hash: &Vec<u8> = match extract_bytes(params, 0) {
            Ok(value) => value,
            Err(e) => {
                return Some(Err(e));
            },
        };
        Some(
            match DelayedTransaction::select_at_hash(connection, hash) {
                Ok(payload) => Ok(SqlResponse::DelayedTransactionSelect { payload }),
                Err(error) => Err(ServerError::InternalDatabaseError { error }),
            },
        )
    } else if same_text(name, "get_l1_l2_level_relationship") {
        Some(
            match L1L2LevelRelationship::get(connection) {
                Ok((latest_l2_level, l1_level)) => Ok(SqlResponse::L1L2LevelRelationshipGet { latest_l2_level, l1_level }),
                Err(error) => Err(ServerError::InternalDatabaseError { error }),
            },
        )
    } else if same_text(name, "get_l1_l2_finalized_level") {
        let l1_level: i32 = match extract_level(params, 0) {
            Ok(value) => value,
            Err(e) => {
                return Some(Err(e));
            },
        };
        Some(
            match L1L2FinalizedLevel::get(connection, l1_level) {
                Ok((start_l2_level, end_l2_level)) => Ok(SqlResponse::L1L2FinalizedLevelGet { start_l2_level, end_l2_level }),
                Err(error) => Err(ServerError::InternalDatabaseError { error }),
            },
        )
    } else if same_text(name, "last_finalized_l2_level") {
        Some(
            match L1L2FinalizedLevel::last_l2_level(connection) {
                Ok(level) => Ok(SqlResponse::L1L2FinalizedLevel { level }),
                Err(error) => Err(ServerError::InternalDatabaseError { error }),
            },
        )
    } else if same_text(name, "last_l1_l2_finalized_level") {
        Some(
            match L1L2FinalizedLevel::last(connection) {
                Ok((l1_level, start_l2_level, end_l2_level)) => Ok(SqlResponse::L1L2FinalizedLevelLast { l1_level, start_l2_level, end_l2_level }),
                Err(error) => Err(ServerError::InternalDatabaseError { error }),
            },
        )
    } else if same_text(name, "find_finalized_l1_level") {
        let l2_level: i32 = match extract_level(params, 0) {
            Ok(value) => value,
            Err(e) => {
                return Some(Err(e));
            },
        };
        Some(
            match L1L2FinalizedLevel::find_l1_level(connection, l2_level) {
                Ok(level) => Ok(SqlResponse::L1L2FinalizedLevel { level }),
                Err(error) => Err(ServerError::InternalDatabaseError { error }),
            },
        )
    } else if same_text(name, "list_l1_l1_finalized_levels_by_l2_levels") {
        let start_l2: i32 = match extract_level(params, 0) {
            Ok(value) => value,
            Err(e) => {
                return Some(Err(e));
            },
        };
        let end_l2: i32 = match extract_level(params, 1) {
            Ok(value) => value,
            Err(e) => {
                return Some(Err(e));
            },
        };
        Some(
            match L1L2FinalizedLevel::list_by_l2_levels(connection, start_l2, end_l2) {
                Ok(levels) => Ok(SqlResponse::L1L2FinalizedLevelList { levels }),
                Err(error) => Err(ServerError::InternalDatabaseError { error }),
            },
        )
    } else if same_text(name, "list_l1_l1_finalized_levels_by_l1_levels") {
        let start_l1: i32 = match extract_level(params, 0) {
            Ok(value) => value,
            Err(e) => {
                return Some(Err(e));
            },
        };
        let end_l1: i32 = match extract_level(params, 1) {
            Ok(value) => value,
            Err(e) => {
                return Some(Err(e));
            },
        };
        Some(
            match L1L2FinalizedLevel::list_by_l1_levels(connection, start_l1, end_l1) {
                Ok(levels) => Ok(SqlResponse::L1L2FinalizedLevelList { levels }),
                Err(error) => Err(ServerError::InternalDatabaseError { error }),
            },
        )
    } else if same_text(name, "nth_irmin_chunk") {
        let offset: i64 = match extract_offset(params, 0) {
            Ok(value) => value,
            Err(e) => {
                return Some(Err(e));
            },
        };
        Some(
            match IrminChunk::nth(connection, offset) {
                Ok((level, timestamp)) => Ok(SqlResponse::IrminChunk { level, timestamp }),
                Err(error) => Err(ServerError::InternalDatabaseError { error }),
            },
        )
    } else if same_text(name, "latest_irmin_chunk") {
        Some(
            match IrminChunk::latest(connection) {
                Ok((level, timestamp)) => Ok(SqlResponse::IrminChunk { level, timestamp }),
                Err(error) => Err(ServerError::InternalDatabaseError { error }),
            },
        )
    } else if same_text(name, "block_storage_mode") {
        Some(
            match BlockStorageMode::legacy(connection) {
                Ok(legacy) => Ok(SqlResponse::BlockStorageMode { legacy }),
                Err(error) => Err(ServerError::InternalDatabaseError { error }),
            },
        )
    } else if same_text(name, "current_migration") {
        Some(
            match Migration::current_migration(connection) {
                Ok(id) => Ok(SqlResponse::CurrentMigrationId { id }),
                Err(error) => Err(ServerError::InternalDatabaseError { error }),
            },
        )
    } else {
        None
    }
}
/// Whether `name` is the name of an operation that a query can ask for.
pub open spec fn is_known(name: Seq<char>) -> bool {
    ||| names_blueprint_or_block(name)
    ||| names_transaction_or_context(name)
    ||| names_upgrade(name)
    ||| names_bridge(name)
}

/// `r` answers the query `name` with `params` on the store: it is what the one operation of
/// that name returns for the parameters, as a response; or it says which parameter cannot be
/// read, the first of them; or, where no operation has that name, it says so with the name.
pub open spec fn answers(
    connection: &Store,
    name: Seq<char>,
    params: Seq<Param>,
    r: Result<SqlResponse, ServerError>,
) -> bool {
    if names_blueprint_or_block(name) {
        answers_blueprint_or_block(connection, name, params, r)
    } else if names_transaction_or_context(name) {
        answers_transaction_or_context(connection, name, params, r)
    } else if names_upgrade(name) {
        answers_upgrade(connection, name, params, r)
    } else if names_bridge(name) {
        answers_bridge(connection, name, params, r)
    } else {
        match r {
            Err(ServerError::UnknownMethod { method_name }) => method_name@ == name,
            _ => false,
        }
    }
}

/// `r` is what an operation returned on a store: a response, or an error of the database.
pub open spec fn comes_from_the_store(r: Result<SqlResponse, ServerError>) -> bool {
    match r {
        Ok(_) => true,
        Err(ServerError::InternalDatabaseError { .. }) => true,
        _ => false,
    }
}

/// `r` refuses a query as `e` does: it names the same parameter, or the same unknown name.
pub open spec fn refuses_as(r: Result<SqlResponse, ServerError>, e: ServerError) -> bool {
    match e {
        ServerError::BadParameterFormat { index } => r == Err::<SqlResponse, ServerError>(
            ServerError::BadParameterFormat { index },
        ),
        ServerError::UnknownMethod { method_name } => match r {
            Err(ServerError::UnknownMethod { method_name: named }) => named@ == method_name@,
            _ => false,
        },
        _ => false,
    }
}

/// Whether a query is refused does not depend on the store: where one store's answer names
/// a parameter that cannot be read, every store's answer is that one; where it names an
/// unknown operation, every store's does; and where it is a response or an error of the
/// database, so is every store's.
pub proof fn lemma_refusal_is_the_same_on_every_store(
    first: &Store,
    second: &Store,
    name: Seq<char>,
    params: Seq<Param>,
    r1: Result<SqlResponse, ServerError>,
    r2: Result<SqlResponse, ServerError>,
)
    requires
        answers(first, name, params, r1),
        answers(second, name, params, r2),
    ensures
        match r1 {
            Ok(_) => comes_from_the_store(r2) && is_known(name),
            Err(ServerError::InternalDatabaseError { .. }) => comes_from_the_store(r2)
                && is_known(name),
            Err(ServerError::BadParameterFormat { .. }) => r2 == r1 && is_known(name),
            Err(ServerError::UnknownMethod { .. }) => !is_known(name) && match r2 {
                Err(ServerError::UnknownMethod { method_name }) => method_name@ == name,
                _ => false,
            },
            Err(ServerError::ConnectionError { .. }) => false,
        },
{
}

/// Whether the query is refused before any store is asked, and how: because no operation has
/// its name, or because a parameter is missing or is not of the kind that the operation
/// takes. `None` where the query names an operation and its parameters can be read; every
/// store then answers it with a response or with an error of the database.
///
/// Neither refusal depends on what a store holds, so an empty store is asked.
pub fn refusal(query: &Sqlquery) -> (found: Option<ServerError>)
    ensures
        match found {
            Some(e) => {
                &&& match e {
                    ServerError::UnknownMethod { method_name } => method_name@ == query.name@
                        && !is_known(query.name@),
                    ServerError::BadParameterFormat { .. } => is_known(query.name@),
                    _ => false,
                }
                &&& forall|connection: &Store, r: Result<SqlResponse, ServerError>|
                    #[trigger] answers(connection, query.name@, query.params@, r) ==> refuses_as(
                        r,
                        e,
                    )
            },
            None => {
                &&& is_known(query.name@)
                &&& forall|connection: &Store, r: Result<SqlResponse, ServerError>|
                    #[trigger] answers(connection, query.name@, query.params@, r)
                        ==> comes_from_the_store(r)
            },
        },
{
    let empty = Store::new();
    let answer = answer_query(&empty, query);
    proof {
        assert forall|connection: &Store, r: Result<SqlResponse, ServerError>|
            #[trigger] answers(connection, query.name@, query.params@, r) implies (match answer {
            Err(ServerError::BadParameterFormat { .. }) => r == answer,
            Err(ServerError::UnknownMethod { .. }) => match r {
                Err(ServerError::UnknownMethod { method_name }) => method_name@ == query.name@,
                _ => false,
            },
            _ => comes_from_the_store(r),
        }) by {
            lemma_refusal_is_the_same_on_every_store(
                &empty,
                connection,
                query.name@,
                query.params@,
                answer,
                r,
            );
        }
        lemma_refusal_is_the_same_on_every_store(
            &empty,
            &empty,
            query.name@,
            query.params@,
            answer,
            answer,
        );
    }
    match answer {
        Err(ServerError::UnknownMethod { method_name }) => Some(
            ServerError::UnknownMethod { method_name },
        ),
        Err(ServerError::BadParameterFormat { index }) => Some(
            ServerError::BadParameterFormat { index },
        ),
        _ => None,
    }
}

/// Answers a query on the store: finds the operation that the query names, reads its
/// parameters, calls it, and gives what it returns the shape of a response.
pub fn answer_query(connection: &Store, query: &Sqlquery) -> (r: Result<SqlResponse, ServerError>)
    ensures
        answers(connection, query.name@, query.params@, r),
{
    let name: &str = query.name.as_str();
    let params = &query.params;
    match answer_blueprint_or_block(connection, name, params) {
        Some(r) => {
            return r;
        },
        None => {},
    }
    match answer_transaction_or_context(connection, name, params) {
        Some(r) => {
            return r;
        },
        None => {},
    }
    match answer_upgrade(connection, name, params) {
        Some(r) => {
            return r;
        },
        None => {},
    }
    match answer_bridge(connection, name, params) {
        Some(r) => {
            return r;
        },
        None => {},
    }
    Err(ServerError::UnknownMethod { method_name: name.to_owned() })
}

} // verus!
