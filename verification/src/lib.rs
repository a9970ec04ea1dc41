//! Decisions of a code-search client: what to index, what to ask of the hosted
//! index, and what to answer on the stdio protocol.
pub mod api_client;
pub mod audit;
pub mod catalog;
pub mod crawl;
pub mod describe;
pub mod dump;
pub mod embedder;
pub mod json;
pub mod outside;
pub mod paths;
pub mod protocol;
pub mod report;
pub mod selector;
pub mod stdio;
pub mod text;
pub mod url;
pub mod watcher;
