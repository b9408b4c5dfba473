//! Merge joins of two sequences that are sorted by a common key.
//!
//! The join pairs up elements with equal keys in one pass over both sources: the side whose
//! current key is lesser advances, and on equal keys the pair is emitted and both sides
//! advance by one. It is consumed in pull mode through [`JoinIt::next`] (a cursor built by
//! [`Joinable::join`] or [`JoinIt::new`]) or in push mode through [`join_it`], which hands
//! each pair to a callback. Both modes run the same stepping rule, modelled by
//! [`merge_join`].

mod cursor;
mod laws;
mod push;
mod spec;

pub use cursor::{is_source, JoinIt, Joinable};
pub use laws::{
    lemma_aligned_keys, lemma_disjoint_keys, lemma_empty_side, lemma_keys_ascend,
    lemma_pairs_match, lemma_push_matches_pull,
};
pub use push::join_it;
pub use spec::{is_key_fn, is_key_order, merge_join, models};
