//! Synchronisation and mutation engine that keeps a local index of
//! directories and files consistent with the messages of a storage channel.

pub mod backup;
pub mod cache;
pub mod commands;
pub mod digest;
pub mod dirs;
pub mod error;
pub mod files;
pub mod fsmeta;
pub mod ids;
pub mod index;
pub mod indexer;
pub mod listing;
pub mod marking;
pub mod model;
pub mod reconcile;
pub mod records;
pub mod roundtrip;
pub mod scan;
pub mod search;
pub mod secrets;
pub mod settings;
pub mod state;
pub mod sync;
pub mod tags;
pub mod telegram;
pub mod text;
pub mod tree;
pub mod unicode;
pub mod window_laws;
