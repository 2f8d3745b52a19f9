//! A reader engine for `site.standard` publications: identifiers, record
//! decoding, search, the caches and the interaction state machine.
pub mod account;
pub mod app;
pub mod atp;
pub mod auth;
pub mod auth_provider;
pub mod browser;
pub mod decode;
pub mod input;
pub mod json;
pub mod laws;
pub mod memstore;
pub mod model;
pub mod persist;
pub mod prefs;
pub mod print;
pub mod read;
pub mod report;
pub mod search;
pub mod store;
pub mod table;
pub mod text;
pub mod transport;
pub mod ui;
pub mod url;
pub mod worker;
