//! Client-side reconciliation logic for a remote package-build service.
//!
//! The crate decides which actions to take against snapshots of remote
//! package and binary metadata: which packages to submit to keep a
//! destination project in sync with a source project (the dependency
//! closure resolver), and which built binaries to promote to release
//! targets while suppressing duplicates and flagging tag collisions
//! (the release action selector).  Transport, authentication and
//! configuration loading are kept at the edges; everything that decides
//! is verified.

pub mod auth;
pub mod binarylist;
pub mod buildinfo;
pub mod buildresult;
pub mod client;
pub mod codes;
pub mod cookies;
pub mod fingerprint;
pub mod meta;
pub mod model;
pub mod oscrc;
pub mod request;
pub mod resolver;
pub mod selector;
pub mod strutil;
pub mod summary;
pub mod trigger;
pub mod urls;
