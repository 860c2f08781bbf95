//! A resilient HTTP acquisition core: shared authentication state with
//! atomic identity switching, a request executor with bounded retry and
//! exponential backoff, and a generic pagination engine that turns a paged
//! list endpoint into one flat sequence of items.
//!
//! All network and file I/O lives outside this crate; the logic here is
//! expressed over plain values and verified.

pub mod acquire;
pub mod data;
pub mod decorator;
pub mod file;
pub mod headers;
pub mod json;
pub mod pagination;
pub mod text;
pub mod tool;
