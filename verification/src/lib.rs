//! Order matching, balance bookkeeping and message building for a small
//! spot exchange, with every operation specified and verified.

pub mod decimal;
pub mod types;
pub mod order_book;
pub mod matching;
pub mod depth;
pub mod balances;
pub mod engine;
pub mod markets;
pub mod messages;
pub mod to_api;
