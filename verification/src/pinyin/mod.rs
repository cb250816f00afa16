//! Mandarin pinyin collation.
pub mod collator;
pub mod key;
pub mod lookup;
pub mod model;
