//! Typed contract calls: Python values to ABI tokens and back.

pub mod abi_types;
pub mod call_laws;
pub mod canonical;
pub mod contract;
pub mod conversion_laws;
pub mod convert;
pub mod decode;
pub mod error;
pub mod event;
pub mod function;
pub mod giving_laws;
pub mod headers;
pub mod init_data;
pub mod init_laws;
pub mod keys;
pub mod ledger;
pub mod message;
pub mod numbers;
pub mod order;
pub mod param;
pub mod parse;
pub mod parsing_laws;
pub mod reading_laws;
pub mod round_trip;
pub mod text;
pub mod token;
pub mod transaction;
pub mod transaction_laws;
pub mod value;
pub mod value_laws;
pub mod version;
pub mod view_laws;
