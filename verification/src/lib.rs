//! Asset index of a game-update service: the handshake frame that names the
//! manifest, the manifest's records, and the catalog that is searched and
//! fetched from.

pub mod catalog;
pub mod cursor;
pub mod document;
pub mod errors;
pub mod order;
pub mod parser;
pub mod ranking;
pub mod revision_checker;
pub mod session;
pub mod sorting;
pub mod text;
pub mod util;
