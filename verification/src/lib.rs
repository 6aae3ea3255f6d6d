//! Tails the log of a virtual-world client, extracts structured events from
//! its lines, and rebuilds sessions from the stored event history.
//!
//! Every function in this crate carries a contract that Verus proves; the
//! few calls into other crates are isolated in small trusted wrappers, each
//! documented where it stands.

pub mod date;
pub mod event;
pub mod importer;
pub mod logfiles;
pub mod parser;
pub mod sessions;
pub mod settings;
pub mod store;
pub mod text;
pub mod watcher;
