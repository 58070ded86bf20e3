//! Upload-to-index coordination for a package-repository host.
//!
//! Clients upload package files into channels, partitioned by architecture,
//! and an indexer keeps each channel's index up to date. This library holds
//! the decisions of that service: where an uploaded file goes, when an upload
//! is refused, which channel gets an indexing loop and when the indexer may
//! run. Disk, network and subprocess work is left to the caller, which
//! performs the actions the library asks for and reports back what happened.
//!
//! - [`config`]: the configuration, its tokens, and where its file is found.
//! - [`path`]: the paths of the storage tree and the destination of an upload.
//! - [`upload`]: one upload request, step by step.
//! - [`registry`]: the channels that were uploaded to, each with its lock.
//! - [`scheduler`]: the indexing loop of a channel.
//! - [`listing`] and [`serve`]: the front page and the files of a channel.
//! - [`replay`], [`race`] and [`system`]: what holds of whole runs of a
//!   session, of two sessions that go for one path, and of the registry and
//!   the loops taken together.

pub mod config;
pub mod listing;
pub mod path;
pub mod race;
pub mod registry;
pub mod replay;
pub mod scheduler;
pub mod serve;
pub mod system;
pub mod upload;
