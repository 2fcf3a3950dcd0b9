//! Verified core of the DBX persistence layer: policy normalization, settings
//! validation, migration decisions and the other rules that sit between the
//! SQLite store and its callers.

pub mod text;
pub mod mcp_policy;
pub mod json;
pub mod storage;
pub mod migration;
pub mod fingerprint;
pub mod settings;
pub mod history;
pub mod secrets;
pub mod cache;
pub mod templates;
pub mod connection_json;
pub mod sidebar;
pub mod folders;
pub mod ai_conversations;
pub mod secret_writes;
pub mod connection_load;
pub mod connection_copy;
pub mod connection_list;
pub mod driver_secrets;
