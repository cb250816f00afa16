//! Mandarin Zhuyin (注音 / Bopomofo) collation. The key of a character
//! packs its primary Zhuyin reading in canonical Bopomofo order, not raw
//! code point order.
use vstd::prelude::*;

use crate::collator::Collator;
use crate::table::{find_entry, lookup};

verus! {

/// Packed Zhuyin keys of the bundled characters.
pub const ZHUYIN_TABLE: [(char, u128); 7] = [
    ('一', 181730390048718966998567371522703360u128),
    ('中', 77887305131767479991393575285817344u128),
    ('八', 5194039878110141443957554296127488u128),
    ('十', 88272057265267611729846992266854400u128),
    ('大', 25963227360606484742664706601254912u128),
    ('天', 31156554173164739611437627254767616u128),
    ('汉', 57117642337115564628548432928178176u128),
];

/// The packed Zhuyin key of `character` in the bundled table.
pub open spec fn table_zhuyin(character: char) -> Option<u128> {
    find_entry(ZHUYIN_TABLE@, character)
}

/// Sorts Hanzi by Mandarin Zhuyin / Bopomofo reading.
#[derive(Debug, Clone, Copy, Default)]
pub struct ZhuyinCollator;

impl ZhuyinCollator {
    /// The collator (it holds no data).
    pub fn new() -> (c: Self) {
        ZhuyinCollator
    }
}

impl Collator for ZhuyinCollator {
    type Data = u128;

    open spec fn spec_data_for(&self, ch: char) -> Option<u128> {
        table_zhuyin(ch)
    }

    open spec fn spec_phrase_data(&self, phrase: Seq<char>) -> Option<Seq<u128>> {
        None
    }

    fn data_for(&self, ch: char) -> (r: Option<u128>) {
        lookup(&ZHUYIN_TABLE, ch)
    }

    fn phrase_data(&self, phrase: &str) -> (r: Option<Vec<u128>>) {
        None
    }
}

} // verus!
