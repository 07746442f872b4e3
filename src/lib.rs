//! Totals the sizes of the objects in a paginated listing.
//!
//! A listing is fetched one page at a time under a fixed container and key
//! prefix. Each page carries a continuation token while more pages remain;
//! the sizes of all items across all pages are summed.

pub mod listing;
pub mod aggregate;
pub mod scripted;
pub mod total;
pub mod lens;
