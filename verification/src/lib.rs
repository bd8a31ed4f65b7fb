//! Interactive fuzzy search over shell command history.
//!
//! The library holds the three pieces that carry the logic: the loader that
//! turns a raw history log into a deduplicated, most-recent-first list of
//! entries, the search engine that ranks that list against a query, and the
//! session state machine that turns input events into query, selection and
//! viewport changes.

pub mod app;
pub mod args;
pub mod canonical;
pub mod history;
pub mod rank;
pub mod search;
pub mod text;
pub mod ui;
