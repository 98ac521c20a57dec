//! Core logic of a trading exchange backend: balances and the ledger,
//! the limit order book, engine output chaining, and the internal
//! transfer state machines.

pub mod text;
pub mod balance;
pub mod ledger;
pub mod transfer_state;
pub mod transfer_types;
pub mod transfer_coordinator;
pub mod internal_transfer_fsm;
pub mod internal_transfer_errors;
pub mod internal_transfer_types;
pub mod sorted_keys;
pub mod order_utils;
pub mod fast_ulid;
pub mod order_book;
pub mod engine_output;
pub mod symbol_utils;
pub mod logging;
pub mod mock_tb;
pub mod api_response;
pub mod balance_requests;
pub mod funding_account;
pub mod user_accounts;
pub mod null_ledger;
pub mod adapters;
pub mod configure;
pub mod matching_engine;
pub mod wal_record;
pub mod symbol_manager;
pub mod client_order;
pub mod reconciliation;
pub mod log_files;
pub mod transfer_queue;
pub mod settlement;
pub mod balance_manager;
pub mod order_history;
pub mod order_requests;
