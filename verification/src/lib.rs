//! Catalog metadata resolution library.
//!
//! Resolves structured metadata for a catalog identifier ("code", shape
//! `LETTERS-DIGITS`) or a free-text query by reconciling the partial and
//! possibly disagreeing answers of two independent web sources: a primary
//! structured metadata site and a secondary torrent-index site.
//!
//! The verified core covers: recognising and normalising catalog codes in
//! noisy titles, the layered field extraction over a fetched document,
//! magnet-link discovery and deduplication, and the fixed fallback/merge
//! policy that combines the two sources.  Network transport and the markup
//! parser are outside collaborators; they hand the library plain values
//! (texts, attributes, table cells) and take plain values back.

pub mod chars;
pub mod code;
pub mod scan;
pub mod types;
pub mod extract;
pub mod resolve;
