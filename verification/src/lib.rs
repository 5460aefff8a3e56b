//! Key encodings, search ranges and block-write planning for an inscription indexer.

pub mod bytes;
pub mod types;
mod consensus;
pub mod address_location;
pub mod partials;
pub mod block_info;
pub mod records;
pub mod token_tick;
pub mod processed_data;
pub mod indexer;
pub mod config;
pub mod rest;
