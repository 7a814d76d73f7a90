//! Verified tools for Bricklink wanted lists.
//!
//! The crate models a wanted list of catalog items, writes it to and reads
//! it from its XML wire format with a proved round trip, merges two lists
//! by identity key with a deterministic output order, and folds a list into
//! summary statistics.
pub mod codec;
pub mod errors;
pub mod inventory;
pub mod merge;
pub mod numbers;
pub mod parse;
pub mod roundtrip;
pub mod stats;
pub mod text;
pub mod wanted;

pub use crate::codec::encode;
pub use crate::merge::{
    build_item_color_hashmap, increment_item, join_inventories, ItemColorHashKey, ItemColorMap,
};
pub use crate::parse::{decode, parse_document};
pub use crate::stats::{
    gen_statistics, type_and_gen_statistics, update_wanted_list_statistic, OwnedItemColorHashKey,
    WantedListStatistics,
};
