//! Command handlers for a small desktop scaffold: string echoes, text-file
//! read/write error reporting, and sorted directory listings. The host
//! runtime and the filesystem calls sit outside; this crate holds the parts
//! that compute, each with a proved contract.

pub mod echo;
pub mod listing;
pub mod messages;
