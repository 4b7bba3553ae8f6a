//! Core engine of a git remote helper that uses a relay-based network of
//! signed events as its discovery and coordination layer.
//!
//! The library holds the verified logic: the event model and the two event
//! caches, filter construction, the per-relay fetch fixpoint, repository
//! identity resolution, proposal listing and patch-chain reconstruction,
//! push classification, and transport selection with authentication-aware
//! fallthrough. I/O (relay sockets, the VCS library, terminals) stays with
//! the callers, which hand the library plain values.

pub mod cache;
pub mod events;
pub mod fetch;
pub mod filters;
pub mod list;
pub mod proposals;
pub mod protocol;
pub mod push;
pub mod repo_ref;
pub mod strings;
pub mod transport;
pub mod urls;
