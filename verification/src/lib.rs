//! Longest-prefix lookup of IP prefixes and their routing metadata.
pub mod addr;
pub mod allocation;
pub mod csv_input;
pub mod delegated;
pub mod error;
pub mod load;
pub mod lookup;
pub mod query;
pub mod record;
pub mod store;
pub mod text;
pub mod timestamps;
pub mod tree;
