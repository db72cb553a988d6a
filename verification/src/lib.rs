//! Bulk retrieval of the large files of a mirrored repository.
//!
//! A repository that keeps its large files elsewhere holds a small pointer
//! stub in the place of each: a text file that declares the SHA-256 hash of
//! the real content. This library finds the stubs, resolves each to a
//! download descriptor, and runs the downloads under a budget of concurrent
//! transfers, with the rest of an interrupted body asked for from where it
//! broke and every finished file held against its declared hash.
//!
//! The library computes and decides; it reads no file and sends no request.
//! Whoever drives it does that and reports what happened:
//!
//! - [`scanner`] reads the tracking rules and collects the names of the stubs,
//! - [`resolver`] reads the stubs and makes the descriptors,
//! - [`engine`] hands out the descriptors within the budget and keeps the
//!   tally,
//! - [`transfer`] is the download of one file, as a state machine,
//! - [`verdict`] holds a finished digest against the declared hash,
//! - [`digest`] is the rolling hash, and [`text`] what the others share.

pub mod digest;
pub mod download;
pub mod engine;
pub mod resolver;
pub mod scanner;
pub mod text;
pub mod transfer;
pub mod verdict;
