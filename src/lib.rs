//! A polite, depth-bounded web crawler core: the frontier work queue with its
//! state transitions, the per-item crawl decisions, and the layered content
//! extractor that turns markup into a searchable document.

pub mod text;
pub mod frontier;
pub mod crawl;
pub mod extract;
pub mod document;
pub mod fetch;
