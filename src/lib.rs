//! An insert-only hash map for memoizing values.
//!
//! Once a value has been stored under a key it is never removed, replaced
//! or mutated by the map, so every reference handed out for that key keeps
//! pointing at the same value for as long as the map lives.

mod laws;
mod map;

pub use laws::{
    count_after_inserts, failed_creation_stores_nothing, insert_once, memo_idempotent,
    stable_under_growth,
};
pub use map::{created, inserted, inserted_all, keys_of, lawful_keys, clones_faithfully, Iter, Keys, MemoMap};
