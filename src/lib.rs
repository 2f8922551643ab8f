//! An ephemeral, bounded, in-memory paste store.
//!
//! `bounded` holds the insertion-ordered table with first-in-first-out
//! eviction, `shared` puts it behind a reader/writer lock, and `ident`
//! makes the short random identifiers under which pastes are filed.

mod ident;
mod laws;
mod shared;
mod bounded;

pub use bounded::{BoundedStore, bytes_of, lookup, put_model, trim_oldest, has_key, keys_distinct, keys_of};
pub use shared::{get_paste, store, store_paste, PasteStore};
pub use ident::{generate_id, id_chars, id_shape, is_digit, is_letter, digit_char, letter_char};
pub use laws::{put_all, pairs, lemma_lookup_at, lemma_put_within_capacity, lemma_read_after_write, lemma_overwrite, lemma_absent_never_filed, lemma_zero_capacity, lemma_distinct_keys_keep_newest, lemma_fifo_eviction};
