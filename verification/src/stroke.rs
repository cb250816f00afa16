//! The stroke-count collator.
use vstd::prelude::*;

use crate::collator::Collator;
use crate::table::{find_entry, lookup};

verus! {

/// Total stroke counts (Unihan `kTotalStrokes`) of the bundled characters.
pub const STROKE_TABLE: [(char, u16); 24] = [
    ('一', 1),
    ('七', 2),
    ('三', 3),
    ('中', 4),
    ('丙', 5),
    ('乙', 1),
    ('二', 2),
    ('人', 2),
    ('八', 2),
    ('十', 2),
    ('口', 3),
    ('四', 5),
    ('大', 3),
    ('天', 4),
    ('女', 3),
    ('字', 6),
    ('庆', 6),
    ('张', 7),
    ('水', 4),
    ('汉', 5),
    ('甲', 5),
    ('行', 6),
    ('赵', 9),
    ('重', 9),
];

/// The stroke count of `character` in the bundled table.
pub open spec fn table_strokes(character: char) -> Option<u16> {
    find_entry(STROKE_TABLE@, character)
}

/// The total stroke count of `character`, if the table knows it.
pub fn stroke_count_for_char(character: char) -> (r: Option<u16>)
    ensures
        r == table_strokes(character),
{
    lookup(&STROKE_TABLE, character)
}

/// Sorts Hanzi by total stroke count. Characters the table does not know
/// are unmapped and sort after every character with a known count.
#[derive(Debug, Clone, Copy, Default)]
pub struct StrokesCollator;

impl Collator for StrokesCollator {
    type Data = u16;

    open spec fn spec_data_for(&self, ch: char) -> Option<u16> {
        table_strokes(ch)
    }

    open spec fn spec_phrase_data(&self, phrase: Seq<char>) -> Option<Seq<u16>> {
        None
    }

    fn data_for(&self, ch: char) -> (r: Option<u16>) {
        stroke_count_for_char(ch)
    }

    fn phrase_data(&self, phrase: &str) -> (r: Option<Vec<u16>>) {
        None
    }
}

} // verus!
