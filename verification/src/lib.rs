//! Syncs Bitwarden Secrets Manager secrets to local `.env` files.
//!
//! The library holds the decisions of the `vault-sync` tool: reading its
//! configuration, finding the access token, judging what `bws` answered,
//! planning a sync or a push, checking for a newer release and rendering the
//! lines the tool prints. The binary around it performs the file, process and
//! network work.

pub mod bws;
pub mod config;
pub mod json;
pub mod reporter;
pub mod styles;
pub mod sync;
pub mod text;
pub mod token;
pub mod update;
pub mod version;
