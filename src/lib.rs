//! A per-workspace, path-addressed variable store whose secret entries are
//! kept encrypted under a workspace key.

pub mod cipher;
pub mod doc;
pub mod error;
pub mod order;
pub mod resolve;
pub mod store;
pub mod utils;
