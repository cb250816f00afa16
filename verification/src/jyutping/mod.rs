//! Cantonese Jyutping (粤拼) collation: Hanzi sort by their Cantonese
//! reading (Unihan `kCantonese`).
pub mod key;
pub mod lookup;
pub mod model;

use vstd::prelude::*;

use crate::collator::{spec_sort_key, Collator, Mapped};
use crate::error::{PinyinSortError, Result};
use crate::jyutping::key::encode_primary_jyutping_unchecked;
use crate::jyutping::lookup::{all_jyutping_for_char, primary_jyutping_for_char, table_jyutping, table_primary_jyutping};
use crate::jyutping::model::JyutpingRecord;
use crate::overrides::{char_reading, phrase_readings, views_of, JyutpingOverride};
use crate::pinyin::key::{
    packing_failure, reading_key, reading_keys, EncodedOverride,
};
use crate::table::{find_entry, lemma_find_entry_map};
use crate::text::chars_of;

verus! {

/// The readings an override table gives `phrase`, if it has the phrase.
pub open spec fn jyutping_override_phrase(overrides: Option<JyutpingOverride>, phrase: Seq<char>) -> Option<
    Seq<Seq<char>>,
> {
    match overrides {
        Some(o) => find_entry(o.phrase_view(), phrase),
        None => None,
    }
}

/// The reading an override table gives `character`, if it has one.
pub open spec fn jyutping_override_char(overrides: Option<JyutpingOverride>, character: char) -> Option<
    Seq<char>,
> {
    match overrides {
        Some(o) => find_entry(o.char_view(), character),
        None => None,
    }
}

/// The readings of one character: the character override if there is
/// one, else every reading of the bundled table.
pub open spec fn jyutping_char_record(overrides: Option<JyutpingOverride>, character: char) -> (
    char,
    Seq<Seq<char>>,
) {
    match jyutping_override_char(overrides, character) {
        Some(r) => (character, seq![r]),
        None => (character, table_jyutping(character)),
    }
}

/// The records `jyutping_of` gives for `value`: with a phrase override,
/// each character paired with its phrase syllable (up to the shorter of the
/// two); otherwise one record per character.
pub open spec fn jyutping_records(overrides: Option<JyutpingOverride>, value: Seq<char>) -> Seq<
    (char, Seq<Seq<char>>),
> {
    match jyutping_override_phrase(overrides, value) {
        Some(rs) => Seq::new(
            if rs.len() < value.len() {
                rs.len()
            } else {
                value.len()
            },
            |i: int| (value[i], seq![rs[i]]),
        ),
        None => Seq::new(value.len(), |i: int| jyutping_char_record(overrides, value[i])),
    }
}

/// The key a character sorts by: its override reading if there is one,
/// else its primary reading in the bundled table.
pub open spec fn jyutping_char_key(overrides: Option<JyutpingOverride>, character: char) -> Option<u128> {
    let from_override = match overrides {
        Some(o) => find_entry(o.char_view(), character),
        None => None,
    };
    match from_override {
        Some(r) => Some(reading_key(r)),
        None => match table_primary_jyutping(character) {
            Some(s) => Some(reading_key(s@)),
            None => None,
        },
    }
}

/// The keys of a phrase's override readings, if the table has the phrase.
pub open spec fn jyutping_phrase_keys(overrides: Option<JyutpingOverride>, phrase: Seq<char>) -> Option<
    Seq<u128>,
> {
    match overrides {
        Some(o) => match find_entry(o.phrase_view(), phrase) {
            Some(rs) => Some(reading_keys(rs)),
            None => None,
        },
        None => None,
    }
}

/// Sorts Hanzi by Cantonese Jyutping (lowercase syllable plus tone digit),
/// optionally honoring a [`JyutpingOverride`] table.
#[derive(Debug)]
pub struct JyutpingCollator {
    override_data: Option<JyutpingOverride>,
    encoded_override: Option<EncodedOverride>,
}

impl JyutpingCollator {
    /// The packed table always packs the override table that the collator
    /// holds.
    #[verifier::type_invariant]
    closed spec fn packed_matches(&self) -> bool {
        match (self.override_data, self.encoded_override) {
            (None, None) => true,
            (Some(o), Some(e)) => e.encodes(o.char_view(), o.phrase_view()) && packing_failure(
                o.char_view(),
                o.phrase_view(),
            ) is None,
            _ => false,
        }
    }

    /// The override table the collator honors, if any.
    pub closed spec fn overrides(&self) -> Option<JyutpingOverride> {
        self.override_data
    }

    /// A collator with no override data.
    pub fn new() -> (c: Self)
        ensures
            c.overrides() is None,
    {
        JyutpingCollator { override_data: None, encoded_override: None }
    }

    /// A collator that honors `override_data`; fails with `InvalidOverride`
    /// when a syllable cannot be packed into a sort key (not ASCII, or
    /// longer than 16 bytes), naming the first such syllable, character
    /// entries first.
    pub fn with_override(override_data: JyutpingOverride) -> (r: Result<Self>)
        ensures
            r is Ok <==> packing_failure(override_data.char_view(), override_data.phrase_view()) is None,
            r matches Ok(c) ==> c.overrides() == Some(override_data),
            r matches Err(e) ==> e matches PinyinSortError::InvalidOverride(m) && packing_failure(
                override_data.char_view(),
                override_data.phrase_view(),
            ) == Some(m@),
    {
        let encoded = EncodedOverride::from_entries(
            &override_data.char_override,
            &override_data.phrase_override,
        )?;
        Ok(JyutpingCollator { override_data: Some(override_data), encoded_override: Some(encoded) })
    }

    /// The readings the collator would use for `value`, character by
    /// character. A phrase override takes precedence, then a character
    /// override, then the bundled table (every reading, most common first).
    pub fn jyutping_of(&self, value: &str) -> (records: Vec<JyutpingRecord>)
        ensures
            records@.map_values(|r: JyutpingRecord| r.view_parts()) == jyutping_records(
                self.overrides(),
                value@,
            ),
    {
        let chars = chars_of(value);
        let ghost want = jyutping_records(self.overrides(), value@);
        let mut records: Vec<JyutpingRecord> = Vec::new();
        if let Some(override_data) = &self.override_data {
            if let Some(syllables) = phrase_readings(&override_data.phrase_override, value) {
                let n = if syllables.len() < chars.len() {
                    syllables.len()
                } else {
                    chars.len()
                };
                let mut i: usize = 0;
                while i < n
                    invariant
                        i <= n,
                        n <= syllables.len(),
                        n <= chars.len(),
                        chars@ == value@,
                        jyutping_override_phrase(self.overrides(), value@) == Some(views_of(syllables)),
                        want == jyutping_records(self.overrides(), value@),
                        want.len() == n,
                        records@.len() == i,
                        records@.map_values(|r: JyutpingRecord| r.view_parts()) == want.take(i as int),
                    decreases n - i,
                {
                    let reading = syllables[i].clone();
                    assert(reading@ == views_of(syllables)[i as int]);
                    let record = single_record(chars[i], reading);
                    let ghost before = records@;
                    records.push(record);
                    assert(records@.map_values(|r: JyutpingRecord| r.view_parts()) =~= before.map_values(
                        |r: JyutpingRecord| r.view_parts(),
                    ).push(want[i as int]));
                    i += 1;
                    assert(want.take(i as int) =~= want.take(i - 1).push(want[i - 1]));
                }
                assert(want.take(n as int) =~= want);
                return records;
            }
        }
        let mut i: usize = 0;
        while i < chars.len()
            invariant
                i <= chars.len(),
                chars@ == value@,
                jyutping_override_phrase(self.overrides(), value@) is None,
                want == jyutping_records(self.overrides(), value@),
                want.len() == chars.len(),
                records@.len() == i,
                records@.map_values(|r: JyutpingRecord| r.view_parts()) == want.take(i as int),
            decreases chars.len() - i,
        {
            let record = self.lookup_char(chars[i]);
            let ghost before = records@;
            records.push(record);
            assert(records@.map_values(|r: JyutpingRecord| r.view_parts()) =~= before.map_values(
                |r: JyutpingRecord| r.view_parts(),
            ).push(want[i as int]));
            i += 1;
            assert(want.take(i as int) =~= want.take(i - 1).push(want[i - 1]));
        }
        assert(want.take(chars.len() as int) =~= want);
        records
    }

    /// The record of one character: its override reading, else every
    /// reading of the bundled table.
    fn lookup_char(&self, character: char) -> (record: JyutpingRecord)
        ensures
            record.view_parts() == jyutping_char_record(self.overrides(), character),
    {
        if let Some(override_data) = &self.override_data {
            if let Some(syllable) = char_reading(&override_data.char_override, character) {
                return single_record(character, syllable);
            }
        }
        JyutpingRecord { jyutping: all_jyutping_for_char(character), character }
    }
}

/// A record with a single reading.
fn single_record(character: char, reading: String) -> (record: JyutpingRecord)
    ensures
        record.view_parts() == (character, seq![reading@]),
{
    let ghost r = reading@;
    let mut readings: Vec<String> = Vec::new();
    readings.push(reading);
    assert(crate::text::views(readings@) =~= seq![r]);
    JyutpingRecord { jyutping: readings, character }
}

/// The same override table as plain values, if any.
pub open spec fn same_table(a: Option<JyutpingOverride>, b: Option<JyutpingOverride>) -> bool {
    match (a, b) {
        (None, None) => true,
        (Some(x), Some(y)) => x.char_view() == y.char_view() && x.phrase_view() == y.phrase_view(),
        _ => false,
    }
}

impl Clone for JyutpingCollator {
    /// A collator with a copy of the same override table.
    fn clone(&self) -> (c: Self)
        ensures
            same_table(c.overrides(), self.overrides()),
    {
        proof {
            use_type_invariant(self);
        }
        match &self.override_data {
            None => JyutpingCollator::new(),
            Some(o) => {
                let table = o.clone();
                match EncodedOverride::from_entries(&table.char_override, &table.phrase_override) {
                    Ok(encoded) => JyutpingCollator { override_data: Some(table), encoded_override: Some(encoded) },
                    Err(_) => {
                        // The table packed when the collator was built, so its copy packs too.
                        proof {
                            assert(false);
                        }
                        JyutpingCollator::new()
                    },
                }
            },
        }
    }
}

impl Default for JyutpingCollator {
    /// A collator with no override data.
    fn default() -> (c: Self)
        ensures
            c.overrides() is None,
    {
        JyutpingCollator::new()
    }
}

impl Collator for JyutpingCollator {
    type Data = u128;

    open spec fn spec_data_for(&self, ch: char) -> Option<u128> {
        jyutping_char_key(self.overrides(), ch)
    }

    open spec fn spec_phrase_data(&self, phrase: Seq<char>) -> Option<Seq<u128>> {
        jyutping_phrase_keys(self.overrides(), phrase)
    }

    fn data_for(&self, ch: char) -> (r: Option<u128>) {
        proof {
            use_type_invariant(self);
        }
        if let Some(encoded) = &self.encoded_override {
            proof {
                let o = self.override_data.unwrap();
                lemma_find_entry_map(o.char_view(), ch, |r: Seq<char>| reading_key(r));
                assert(encoded.char_keys() =~= o.char_view().map_values(
                    |e: (char, Seq<char>)| (e.0, (|r: Seq<char>| reading_key(r))(e.1)),
                ));
            }
            if let Some(key) = encoded.char_override(ch) {
                return Some(key);
            }
        }
        match primary_jyutping_for_char(ch) {
            Some(s) => Some(encode_primary_jyutping_unchecked(s)),
            None => None,
        }
    }

    fn phrase_data(&self, phrase: &str) -> (r: Option<Vec<u128>>) {
        proof {
            use_type_invariant(self);
        }
        match &self.encoded_override {
            Some(encoded) => {
                proof {
                    let o = self.override_data.unwrap();
                    lemma_find_entry_map(o.phrase_view(), phrase@, |rs: Seq<Seq<char>>| reading_keys(rs));
                    assert(encoded.phrase_keys() =~= o.phrase_view().map_values(
                        |e: (Seq<char>, Seq<Seq<char>>)| (e.0, (|rs: Seq<Seq<char>>| reading_keys(rs))(e.1)),
                    ));
                }
                match encoded.phrase_override(phrase) {
                    Some(keys) => Some(vstd::slice::slice_to_vec(keys)),
                    None => None,
                }
            },
            None => None,
        }
    }
}

/// The sort key follows the readings `jyutping_of` reports: it has one
/// token per record, for the record's character, whose data is the key of
/// the record's first reading, or no data when the record has no reading.
pub proof fn lemma_sort_key_follows_first_reading(collator: &JyutpingCollator, value: Seq<char>)
    ensures
        spec_sort_key(collator, value).len() == jyutping_records(collator.overrides(), value).len(),
        forall|i: int|
            0 <= i < spec_sort_key(collator, value).len() ==> {
                let record = #[trigger] jyutping_records(collator.overrides(), value)[i];
                &&& spec_sort_key(collator, value)[i].character == record.0
                &&& spec_sort_key(collator, value)[i].data == if record.1.len() > 0 {
                    Mapped::Yes(reading_key(record.1[0]))
                } else {
                    Mapped::<u128>::No
                }
            },
{
    let key = spec_sort_key(collator, value);
    let records = jyutping_records(collator.overrides(), value);
    assert forall|i: int| 0 <= i < key.len() implies {
        let record = #[trigger] records[i];
        &&& key[i].character == record.0
        &&& key[i].data == if record.1.len() > 0 {
            Mapped::Yes(reading_key(record.1[0]))
        } else {
            Mapped::<u128>::No
        }
    } by {
        crate::jyutping::lookup::lemma_primary_is_first_reading(value[i]);
    }
}

} // verus!
