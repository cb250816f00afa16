//! The Mandarin pinyin collator.
use vstd::prelude::*;

use crate::collator::{spec_sort_key, Collator, Mapped};
use crate::error::Result;
use crate::overrides::PinyinOverride;
use crate::pinyin::key::{
    encode_primary_pinyin_unchecked, packing_failure, reading_key,
    reading_keys, EncodedOverride,
};
use crate::pinyin::lookup::{all_pinyin_for_char, primary_pinyin_for_char, table_primary, table_readings};
use crate::pinyin::model::PinYinRecord;
use crate::table::{find_entry, lemma_find_entry_map};
use crate::overrides::{char_reading, phrase_readings, views_of};
use crate::text::chars_of;

verus! {

/// The reading an override table gives `character`, if it has one.
pub open spec fn override_char(overrides: Option<PinyinOverride>, character: char) -> Option<Seq<char>> {
    match overrides {
        Some(o) => find_entry(o.char_view(), character),
        None => None,
    }
}

/// The readings an override table gives `phrase`, if it has the phrase.
pub open spec fn override_phrase(overrides: Option<PinyinOverride>, phrase: Seq<char>) -> Option<
    Seq<Seq<char>>,
> {
    match overrides {
        Some(o) => find_entry(o.phrase_view(), phrase),
        None => None,
    }
}

/// The readings of one character: the character override if there is
/// one, else every reading of the bundled table.
pub open spec fn char_record(overrides: Option<PinyinOverride>, character: char) -> (char, Seq<Seq<char>>) {
    match override_char(overrides, character) {
        Some(r) => (character, seq![r]),
        None => (character, table_readings(character)),
    }
}

/// The records `pinyin_of` gives for `value`: with a phrase override, each
/// character paired with its phrase syllable (up to the shorter of the
/// two); otherwise one record per character.
pub open spec fn pinyin_records(overrides: Option<PinyinOverride>, value: Seq<char>) -> Seq<
    (char, Seq<Seq<char>>),
> {
    match override_phrase(overrides, value) {
        Some(rs) => Seq::new(
            if rs.len() < value.len() {
                rs.len()
            } else {
                value.len()
            },
            |i: int| (value[i], seq![rs[i]]),
        ),
        None => Seq::new(value.len(), |i: int| char_record(overrides, value[i])),
    }
}

/// The key a character sorts by: its override reading if there is one,
/// else its primary reading in the bundled table.
pub open spec fn pinyin_char_key(overrides: Option<PinyinOverride>, character: char) -> Option<u128> {
    match override_char(overrides, character) {
        Some(r) => Some(reading_key(r)),
        None => match table_primary(character) {
            Some(s) => Some(reading_key(s@)),
            None => None,
        },
    }
}

/// Sorts Hanzi by Mandarin pinyin (tone digit last, lowercase) using the
/// bundled reading table.
///
/// An optional [`PinyinOverride`] supplies phrase-level and per-character
/// readings for polyphonic phrases such as `重庆` or `银行`.
#[derive(Debug)]
pub struct PinyinCollator {
    override_data: Option<PinyinOverride>,
    encoded_override: Option<EncodedOverride>,
}

impl PinyinCollator {
    /// The packed table always packs the override table that the collator
    /// holds.
    #[verifier::type_invariant]
    closed spec fn packed_matches(&self) -> bool {
        match (self.override_data, self.encoded_override) {
            (None, None) => true,
            (Some(o), Some(e)) => e.encodes(o.char_view(), o.phrase_view()) && packing_failure(
                o.char_view(),
                o.phrase_view(),
            ) is None,
            _ => false,
        }
    }

    /// The override table the collator honors, if any.
    pub closed spec fn overrides(&self) -> Option<PinyinOverride> {
        self.override_data
    }

    /// A collator with no override data.
    pub fn new() -> (c: Self)
        ensures
            c.overrides() is None,
    {
        PinyinCollator { override_data: None, encoded_override: None }
    }

    /// A collator that honors `override_data`.
    ///
    /// The table should already pass [`PinyinOverride::validate`]; as a
    /// second line of defence this fails with `InvalidOverride` when a
    /// syllable cannot be packed into a sort key (not ASCII, or longer than
    /// 16 bytes), naming the first such syllable, character entries first.
    pub fn with_override(override_data: PinyinOverride) -> (r: Result<Self>)
        ensures
            r is Ok <==> packing_failure(override_data.char_view(), override_data.phrase_view()) is None,
            r matches Ok(c) ==> c.overrides() == Some(override_data),
            r matches Err(e) ==> e matches crate::error::PinyinSortError::InvalidOverride(m) && packing_failure(
                override_data.char_view(),
                override_data.phrase_view(),
            ) == Some(m@),
    {
        let encoded = EncodedOverride::from_entries(
            &override_data.char_override,
            &override_data.phrase_override,
        )?;
        Ok(PinyinCollator { override_data: Some(override_data), encoded_override: Some(encoded) })
    }

    /// The readings the collator would use for `value`, character by
    /// character. A phrase override takes precedence, then a character
    /// override, then the bundled table (every reading, most common first).
    pub fn pinyin_of(&self, value: &str) -> (records: Vec<PinYinRecord>)
        ensures
            records@.map_values(|r: PinYinRecord| r.view_parts()) == pinyin_records(
                self.overrides(),
                value@,
            ),
    {
        let chars = chars_of(value);
        let ghost want = pinyin_records(self.overrides(), value@);
        let mut records: Vec<PinYinRecord> = Vec::new();
        if let Some(override_data) = &self.override_data {
            if let Some(pinyins) = phrase_readings(&override_data.phrase_override, value) {
                let n = if pinyins.len() < chars.len() {
                    pinyins.len()
                } else {
                    chars.len()
                };
                let mut i: usize = 0;
                while i < n
                    invariant
                        i <= n,
                        n <= pinyins.len(),
                        n <= chars.len(),
                        chars@ == value@,
                        self.overrides() == Some(*override_data),
                        override_phrase(self.overrides(), value@) == Some(views_of(pinyins)),
                        want == pinyin_records(self.overrides(), value@),
                        want.len() == n,
                        records@.len() == i,
                        records@.map_values(|r: PinYinRecord| r.view_parts()) == want.take(i as int),
                    decreases n - i,
                {
                    let reading = pinyins[i].clone();
                    assert(reading@ == views_of(pinyins)[i as int]);
                    let record = single_record(chars[i], reading);
                    let ghost before = records@;
                    records.push(record);
                    assert(records@.map_values(|r: PinYinRecord| r.view_parts()) =~= before.map_values(
                        |r: PinYinRecord| r.view_parts(),
                    ).push(want[i as int]));
                    i += 1;
                    assert(want.take(i as int) =~= want.take(i - 1).push(want[i - 1]));
                }
                assert(want.take(n as int) =~= want);
                return records;
            }
        }
        let mut i: usize = 0;
        while i < chars.len()
            invariant
                i <= chars.len(),
                chars@ == value@,
                override_phrase(self.overrides(), value@) is None,
                want == pinyin_records(self.overrides(), value@),
                want.len() == chars.len(),
                records@.map_values(|r: PinYinRecord| r.view_parts()) == want.take(i as int),
            decreases chars.len() - i,
        {
            let record = self.lookup_char(chars[i]);
            let ghost before = records@;
            records.push(record);
            assert(records@.map_values(|r: PinYinRecord| r.view_parts()) =~= before.map_values(
                |r: PinYinRecord| r.view_parts(),
            ).push(want[i as int]));
            i += 1;
            assert(want.take(i as int) =~= want.take(i - 1).push(want[i - 1]));
        }
        assert(want.take(chars.len() as int) =~= want);
        records
    }

    /// The record of one character: its override reading, else every
    /// reading of the bundled table.
    fn lookup_char(&self, character: char) -> (record: PinYinRecord)
        ensures
            record.view_parts() == char_record(self.overrides(), character),
    {
        if let Some(override_data) = &self.override_data {
            if let Some(pinyin) = char_reading(&override_data.char_override, character) {
                return single_record(character, pinyin);
            }
        }
        PinYinRecord { pinyin: all_pinyin_for_char(character), character }
    }
}

/// A record with a single reading.
fn single_record(character: char, reading: String) -> (record: PinYinRecord)
    ensures
        record.view_parts() == (character, seq![reading@]),
{
    let ghost r = reading@;
    let mut readings: Vec<String> = Vec::new();
    readings.push(reading);
    assert(crate::text::views(readings@) =~= seq![r]);
    PinYinRecord { pinyin: readings, character }
}


/// The same override table as plain values, if any.
pub open spec fn same_table(a: Option<PinyinOverride>, b: Option<PinyinOverride>) -> bool {
    match (a, b) {
        (None, None) => true,
        (Some(x), Some(y)) => x.char_view() == y.char_view() && x.phrase_view() == y.phrase_view(),
        _ => false,
    }
}

impl Clone for PinyinCollator {
    /// A collator with a copy of the same override table.
    fn clone(&self) -> (c: Self)
        ensures
            same_table(c.overrides(), self.overrides()),
    {
        proof {
            use_type_invariant(self);
        }
        match &self.override_data {
            None => PinyinCollator::new(),
            Some(o) => {
                let table = o.clone();
                match EncodedOverride::from_entries(&table.char_override, &table.phrase_override) {
                    Ok(encoded) => PinyinCollator { override_data: Some(table), encoded_override: Some(encoded) },
                    Err(_) => {
                        // The table packed when the collator was built, so its copy packs too.
                        proof {
                            assert(false);
                        }
                        PinyinCollator::new()
                    },
                }
            },
        }
    }
}

impl Default for PinyinCollator {
    /// A collator with no override data.
    fn default() -> (c: Self)
        ensures
            c.overrides() is None,
    {
        PinyinCollator::new()
    }
}

impl Collator for PinyinCollator {
    type Data = u128;

    open spec fn spec_data_for(&self, ch: char) -> Option<u128> {
        pinyin_char_key(self.overrides(), ch)
    }

    open spec fn spec_phrase_data(&self, phrase: Seq<char>) -> Option<Seq<u128>> {
        match override_phrase(self.overrides(), phrase) {
            Some(rs) => Some(reading_keys(rs)),
            None => None,
        }
    }

    fn data_for(&self, ch: char) -> (r: Option<u128>) {
        proof {
            use_type_invariant(self);
        }
        if let Some(encoded) = &self.encoded_override {
            proof {
                let o = self.override_data.unwrap();
                lemma_find_entry_map(o.char_view(), ch, |r: Seq<char>| reading_key(r));
                assert(encoded.char_keys() =~= o.char_view().map_values(
                    |e: (char, Seq<char>)| (e.0, (|r: Seq<char>| reading_key(r))(e.1)),
                ));
            }
            if let Some(key) = encoded.char_override(ch) {
                return Some(key);
            }
        }
        match primary_pinyin_for_char(ch) {
            Some(s) => Some(encode_primary_pinyin_unchecked(s)),
            None => None,
        }
    }

    fn phrase_data(&self, phrase: &str) -> (r: Option<Vec<u128>>) {
        proof {
            use_type_invariant(self);
        }
        match &self.encoded_override {
            Some(encoded) => {
                proof {
                    let o = self.override_data.unwrap();
                    lemma_find_entry_map(o.phrase_view(), phrase@, |rs: Seq<Seq<char>>| reading_keys(rs));
                    assert(encoded.phrase_keys() =~= o.phrase_view().map_values(
                        |e: (Seq<char>, Seq<Seq<char>>)| (e.0, (|rs: Seq<Seq<char>>| reading_keys(rs))(e.1)),
                    ));
                }
                match encoded.phrase_override(phrase) {
                    Some(keys) => Some(vstd::slice::slice_to_vec(keys)),
                    None => None,
                }
            },
            None => None,
        }
    }
}

/// A phrase override takes precedence: when the override table has the
/// whole string as a phrase, each character sorts by its phrase syllable,
/// whatever character override or table reading it has; otherwise each
/// character sorts by its character override, else its primary table
/// reading.
pub proof fn lemma_phrase_override_precedence(collator: &PinyinCollator, value: Seq<char>, i: int)
    requires
        0 <= i < value.len(),
    ensures
        override_phrase(collator.overrides(), value) matches Some(rs) ==> (i < rs.len() ==> spec_sort_key(
            collator,
            value,
        )[i].data == Mapped::Yes(reading_key(rs[i]))),
        override_phrase(collator.overrides(), value) is None ==> spec_sort_key(collator, value)[i].data
            == match pinyin_char_key(collator.overrides(), value[i]) {
            Some(k) => Mapped::Yes(k),
            None => Mapped::<u128>::No,
        },
{
}

/// The sort key follows the readings `pinyin_of` reports: it has one token
/// per record, for the record's character, whose data is the key of the
/// record's first reading, or no data when the record has no reading.
pub proof fn lemma_sort_key_follows_first_reading(collator: &PinyinCollator, value: Seq<char>)
    ensures
        spec_sort_key(collator, value).len() == pinyin_records(collator.overrides(), value).len(),
        forall|i: int|
            0 <= i < spec_sort_key(collator, value).len() ==> {
                let record = #[trigger] pinyin_records(collator.overrides(), value)[i];
                &&& spec_sort_key(collator, value)[i].character == record.0
                &&& spec_sort_key(collator, value)[i].data == if record.1.len() > 0 {
                    Mapped::Yes(reading_key(record.1[0]))
                } else {
                    Mapped::<u128>::No
                }
            },
{
    let key = spec_sort_key(collator, value);
    let records = pinyin_records(collator.overrides(), value);
    assert forall|i: int| 0 <= i < key.len() implies {
        let record = #[trigger] records[i];
        &&& key[i].character == record.0
        &&& key[i].data == if record.1.len() > 0 {
            Mapped::Yes(reading_key(record.1[0]))
        } else {
            Mapped::<u128>::No
        }
    } by {
        crate::pinyin::lookup::lemma_primary_is_first_reading(value[i]);
    }
}

} // verus!
