//! Backend library of a personal-finance tool that keeps accounts,
//! categories, transactions and plans in an encrypted store and
//! synchronizes changes between instances through a shared,
//! envelope-encrypted changelog.

pub mod budget;
pub mod buffer;
pub mod changelog;
pub mod config;
pub mod codec;
pub mod data;
pub mod datetime;
pub mod engine;
pub mod error;
pub mod kdf;
pub mod key;
pub mod prng;
pub mod storage;
pub mod symmetric;
pub mod sync;
