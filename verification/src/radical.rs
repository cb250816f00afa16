//! Kangxi radical (部首) collation, after Unihan `kRSUnicode`. The key of a
//! character is `radical * 1000 + residual strokes`, so integer order is
//! radical first, residual stroke count second.
use vstd::prelude::*;

use crate::collator::Collator;
use crate::table::{find_entry, lookup};

verus! {

/// Radical/stroke keys of the bundled characters.
pub const RADICAL_TABLE: [(char, u32); 10] = [
    ('一', 1000),
    ('中', 2003),
    ('人', 9000),
    ('十', 24000),
    ('口', 30000),
    ('大', 37000),
    ('天', 37001),
    ('水', 85000),
    ('汉', 85002),
    ('重', 166002),
];

/// The radical/stroke key of `character` in the bundled table.
pub open spec fn table_radical(character: char) -> Option<u32> {
    find_entry(RADICAL_TABLE@, character)
}

/// Sorts Hanzi by Kangxi radical and residual stroke count.
#[derive(Debug, Clone, Copy, Default)]
pub struct RadicalCollator;

impl RadicalCollator {
    /// The collator (it holds no data).
    pub fn new() -> (c: Self) {
        RadicalCollator
    }
}

impl Collator for RadicalCollator {
    type Data = u32;

    open spec fn spec_data_for(&self, ch: char) -> Option<u32> {
        table_radical(ch)
    }

    open spec fn spec_phrase_data(&self, phrase: Seq<char>) -> Option<Seq<u32>> {
        None
    }

    fn data_for(&self, ch: char) -> (r: Option<u32>) {
        lookup(&RADICAL_TABLE, ch)
    }

    fn phrase_data(&self, phrase: &str) -> (r: Option<Vec<u32>>) {
        None
    }
}

} // verus!
