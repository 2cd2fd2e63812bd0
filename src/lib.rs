//! Ingestion of SMS messages from cellular modems into a deduplicated
//! message store, with the decisions of each poll cycle proved correct.

pub mod api;
pub mod config;
pub mod db;
pub mod modem;
pub mod poller;
pub mod utils;
