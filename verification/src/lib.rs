//! Per-branch development sandboxes: a worktree paired with a service
//! stack, several of them side by side without fighting over ports.
//!
//! The heart of the crate is in three places:
//!
//! - [`compose`] rewrites the service-stack document of a repository into
//!   the overlay of one instance, with every published host port shifted
//!   by an offset and every container name suffixed; [`ports`] holds the
//!   short form of a published port, [`env`] the variables it may refer to,
//!   and [`listing`] reads the published ports back.
//! - [`offset`] chooses the block of ports that an instance shifts by.
//! - [`state`] keeps the instances and the ledger of the local ports they
//!   occupy, and keeps the two in agreement.
//!
//! Around them stand the texts that are handed to other programs
//! ([`template`], [`scripts`], [`hooks`]), what is read back from them
//! ([`machine`], [`images`]), configuration ([`config`]) and paths
//! ([`paths`]).
//!
//! Documents are parsed and written by `serde_yaml` and `serde_json`;
//! [`yaml`] and [`json`] say what this crate takes on trust of them.

pub mod compose;
pub mod config;
pub mod env;
pub mod hooks;
pub mod images;
pub mod json;
pub mod listing;
pub mod machine;
pub mod names;
pub mod offset;
pub mod order;
pub mod paths;
pub mod ports;
pub mod scripts;
pub mod state;
pub mod template;
pub mod text;
pub mod yaml;
