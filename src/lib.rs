//! Reconciliation of a local, content-addressed asset tree with a remote
//! key-value namespace: which pairs to upload, which keys to delete, and how
//! to repair the asset manifest after a partial (subset) sync.

pub mod content_key;
pub mod key_set;
pub mod manifest;
pub mod reconcile;
pub mod route;
pub mod sync;
