//! The OL transaction mempool: configuration, statistics, ordering,
//! validation and the in-memory pool itself.

pub mod types;
pub mod ordering;
pub mod error;
pub mod chain_view;
pub mod validation;
pub mod stored;
pub mod state;
pub mod upkeep;
