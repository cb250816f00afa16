//! Sort Chinese text the way Chinese readers expect: by Hanyu Pinyin,
//! stroke count, Cantonese Jyutping, Mandarin Zhuyin or Kangxi radical,
//! with deterministic tie-breaking, phrase-level overrides for polyphonic
//! characters, and tabular output.
//!
//! A [`Collator`] maps each character to optional sort data;
//! [`sort_strings_with`] orders strings by the resulting keys, keeping the
//! input order of entries whose keys are equal. [`AnyCollator`] chooses the
//! scheme at run time, and [`app::render`] runs a whole configuration.
pub mod app;
pub mod cli;
pub mod collator;
pub mod config;
pub mod error;
pub mod format;
pub mod input;
pub mod jyutping;
pub mod name;
pub mod order;
pub mod overrides;
pub mod pinyin;
pub mod radical;
pub mod sorting;
pub mod stroke;
pub mod table;
pub mod text;
pub mod zhuyin;

pub use collator::{sort_indices_with, sort_key_of, sort_strings_with, AnyCollator, CharToken, Collator, Mapped, SortKey};
pub use config::{HeaderSpec, InputSource, RuntimeConfig};
pub use error::{HanziSortError, PinyinSortError, Result};
pub use format::{Align, FormatConfig};
pub use jyutping::model::JyutpingRecord;
pub use jyutping::JyutpingCollator;
pub use overrides::{JyutpingOverride, PinyinOverride};
pub use pinyin::collator::PinyinCollator;
pub use pinyin::model::PinYinRecord;
pub use radical::RadicalCollator;
pub use stroke::StrokesCollator;
pub use zhuyin::ZhuyinCollator;
pub use name::NameCollator;
