//! Substring extraction, replacement, insertion and search addressed by
//! character index rather than byte offset, so that every operation is safe
//! on multibyte UTF-8 text.
//!
//! Byte-oriented slicing panics or corrupts text when an index falls inside
//! a multibyte encoding unit. The functions here count Unicode scalar
//! values instead: out-of-range indices clamp to the end of the text,
//! a resolved range whose end does not exceed its start denotes an empty
//! span, and negative indices count back from the end of the text.

pub mod engine;
pub mod laws;
pub mod resolve;
pub mod search;
pub mod translate;

pub use engine::append;
pub use engine::insert_adjacent;
pub use engine::insert_after_first;
pub use engine::insert_after_last;
pub use engine::insert_before_first;
pub use engine::insert_before_last;
pub use engine::insert_between;
pub use engine::insert_seq;
pub use engine::prepend;
pub use engine::replace_seq;
pub use engine::substring;
pub use engine::substring_end;
pub use engine::substring_insert;
pub use engine::substring_offset;
pub use engine::substring_pull;
pub use engine::substring_remove;
pub use engine::substring_replace;
pub use engine::substring_replace_end;
pub use engine::substring_replace_start;
pub use engine::substring_seq;
pub use engine::substring_start;
pub use laws::lemma_empty_range;
pub use laws::lemma_insert;
pub use laws::lemma_negative_offset;
pub use laws::lemma_remove_insert;
pub use laws::lemma_round_trip;
pub use resolve::clamp_index;
pub use resolve::position_and_offset_to_start_end;
pub use resolve::resolve_index;
pub use resolve::resolved_index;
pub use resolve::resolved_span_end;
pub use resolve::resolved_span_start;
pub use search::char_find;
pub use search::char_rfind;
pub use search::first_match_index;
pub use search::has_match;
pub use search::is_first_match;
pub use search::is_last_match;
pub use search::is_match_at;
pub use search::last_match_index;
pub use search::lemma_first_match_index;
pub use search::lemma_last_match_index;
pub use translate::byte_index_of;
pub use translate::char_len;
pub use translate::char_utf8_len;
pub use translate::lemma_byte_index_is_boundary;
pub use translate::lemma_char_len_uniform_width;
pub use translate::lemma_encode_utf8_concat;
pub use translate::to_end_byte_index;
pub use translate::to_start_byte_index;
