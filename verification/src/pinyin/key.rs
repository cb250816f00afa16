//! Packing of a reading into a `u128` whose integer order is the byte-wise
//! lexicographic order of the reading.
use smallvec::SmallVec;
use vstd::prelude::*;
use vstd::string::StringSliceAdditionalSpecFns;
use vstd::utf8::encode_utf8;

use crate::error::{PinyinSortError, Result};
use crate::overrides::{
    char_entries, char_override_problem, first_syllable_problem, override_problem, phrase_entries,
    phrase_entry_problem, phrase_override_problem, syllable_problem,
};
use crate::table::find_entry;
use crate::text::{push_str, views};

verus! {

/// Longest reading, in bytes, that fits a `u128` key.
pub const MAX_ENCODED_PINYIN_LEN: usize = 16;

/// `256` to the power `n`.
pub open spec fn pow256(n: nat) -> nat
    decreases n,
{
    if n == 0 {
        1
    } else {
        256 * pow256((n - 1) as nat)
    }
}

/// The big-endian value of `bytes`.
pub open spec fn be_value(bytes: Seq<u8>) -> nat
    decreases bytes.len(),
{
    if bytes.len() == 0 {
        0
    } else {
        be_value(bytes.drop_last()) * 256 + bytes.last() as nat
    }
}

/// `bytes` followed by zero bytes up to `width` bytes in all.
pub open spec fn zero_padded(bytes: Seq<u8>, width: nat) -> Seq<u8> {
    bytes + Seq::new((width - bytes.len()) as nat, |_i: int| 0u8)
}

/// The key of a reading of at most 16 bytes: its bytes, zero-padded on the
/// right to 16 bytes, read as a big-endian integer.
pub open spec fn packed_key(bytes: Seq<u8>) -> nat {
    be_value(zero_padded(bytes, 16))
}

pub proof fn lemma_pow256_monotone(m: nat, n: nat)
    requires
        m <= n,
    ensures
        pow256(m) <= pow256(n),
    decreases n,
{
    if m < n {
        lemma_pow256_monotone(m, (n - 1) as nat);
    }
}

/// A big-endian value is below `256` to the power of its length.
pub proof fn lemma_be_value_bound(bytes: Seq<u8>)
    ensures
        be_value(bytes) < pow256(bytes.len()),
    decreases bytes.len(),
{
    if bytes.len() > 0 {
        lemma_be_value_bound(bytes.drop_last());
        let v = be_value(bytes.drop_last());
        let p = pow256((bytes.len() - 1) as nat);
        let b = bytes.last() as nat;
        assert(v * 256 + b < p * 256) by (nonlinear_arith)
            requires
                v < p,
                b < 256,
        ;
    }
}

proof fn lemma_pow256_16()
    ensures
        pow256(16) == 0x1_0000_0000_0000_0000_0000_0000_0000_0000,
{
    reveal_with_fuel(pow256, 17);
}

/// Packs a reading that the caller knows fits a key (at most 16 bytes), as
/// the bundled table's readings do.
pub fn encode_primary_pinyin_unchecked(pinyin: &str) -> (encoded: u128)
    requires
        pinyin.spec_bytes().len() <= MAX_ENCODED_PINYIN_LEN,
    ensures
        encoded == packed_key(pinyin.spec_bytes()),
{
    let bytes = pinyin.as_bytes();
    let ghost padded = zero_padded(bytes@, 16);
    let mut encoded: u128 = 0;
    let mut i: usize = 0;
    assert(padded.take(0) =~= Seq::<u8>::empty());
    while i < MAX_ENCODED_PINYIN_LEN
        invariant
            bytes@ == pinyin.spec_bytes(),
            bytes@.len() <= 16,
            padded == zero_padded(bytes@, 16),
            padded.len() == 16,
            i <= 16,
            encoded == be_value(padded.take(i as int)),
        decreases 16 - i,
    {
        let b: u8 = if i < bytes.len() {
            bytes[i]
        } else {
            0
        };
        assert(padded[i as int] == b);
        proof {
            lemma_be_value_bound(padded.take(i as int));
            lemma_pow256_monotone(i as nat, 15);
            lemma_pow256_16();
            assert(pow256(16) == 256 * pow256(15));
        }
        encoded = encoded * 256 + b as u128;
        i += 1;
        assert(padded.take(i as int).drop_last() =~= padded.take(i - 1));
    }
    assert(padded.take(16) =~= padded);
    encoded
}

/// Packs a reading into a `u128` whose integer order is the byte-wise order
/// of the reading. A reading longer than 16 bytes or not ASCII is refused
/// with the reason, instead of packed.
pub fn encode_primary_pinyin(pinyin: &str) -> (r: std::result::Result<u128, &'static str>)
    ensures
        r is Ok <==> reading_packable(pinyin@),
        r matches Ok(encoded) ==> encoded == packed_key(pinyin.spec_bytes()),
        r matches Err(reason) ==> reason@ == packing_problem(pinyin@),
{
    if pinyin.as_bytes().len() > MAX_ENCODED_PINYIN_LEN {
        proof {
            reveal_strlit("syllable exceeds 16 bytes");
        }
        return Err("syllable exceeds 16 bytes");
    }
    if !pinyin.is_ascii() {
        proof {
            reveal_strlit("syllable must be ASCII");
        }
        return Err("syllable must be ASCII");
    }
    Ok(encode_primary_pinyin_unchecked(pinyin))
}

/// The key of a reading given by its characters.
pub open spec fn reading_key(reading: Seq<char>) -> u128 {
    packed_key(encode_utf8(reading)) as u128
}

/// A reading that fits a key: ASCII and at most 16 bytes.
pub open spec fn reading_packable(reading: Seq<char>) -> bool {
    vstd::utf8::is_ascii_chars(reading) && encode_utf8(reading).len() <= 16
}

/// Why a reading does not fit a key.
pub open spec fn packing_problem(reading: Seq<char>) -> Seq<char> {
    if encode_utf8(reading).len() > 16 {
        "syllable exceeds 16 bytes"@
    } else {
        "syllable must be ASCII"@
    }
}

/// The message for a reading that does not fit a key.
pub open spec fn packing_message(reading: Seq<char>) -> Seq<char> {
    "override syllable '"@ + reading + "' cannot be encoded: "@ + packing_problem(reading)
}

/// The error message for the first reading of an override table
/// (character entries first) that does not fit a key, if there is one.
pub open spec fn packing_failure(
    chars: Seq<(char, Seq<char>)>,
    phrases: Seq<(Seq<char>, Seq<Seq<char>>)>,
) -> Option<Seq<char>> {
    match first_unpackable(override_readings(chars, phrases)) {
        Some(reading) => Some(packing_message(reading)),
        None => None,
    }
}

/// The first reading of `readings` that does not fit a key.
pub open spec fn first_unpackable(readings: Seq<Seq<char>>) -> Option<Seq<char>>
    decreases readings.len(),
{
    if readings.len() == 0 {
        None
    } else if !reading_packable(readings[0]) {
        Some(readings[0])
    } else {
        first_unpackable(readings.drop_first())
    }
}

/// All readings of an override table, character entries first.
pub open spec fn override_readings(
    chars: Seq<(char, Seq<char>)>,
    phrases: Seq<(Seq<char>, Seq<Seq<char>>)>,
) -> Seq<Seq<char>> {
    chars.map_values(|e: (char, Seq<char>)| e.1) + phrases.map_values(
        |e: (Seq<char>, Seq<Seq<char>>)| e.1,
    ).flatten()
}

/// The keys of a phrase's readings.
pub open spec fn reading_keys(readings: Seq<Seq<char>>) -> Seq<u128> {
    readings.map_values(|r: Seq<char>| reading_key(r))
}

/// Packed readings of one override phrase, kept inline for short phrases.
#[verifier::external_body]
#[derive(Debug)]
pub struct EncodedReadings {
    keys: SmallVec<[u128; 8]>,
}

/// The keys that packed phrase readings hold, in order.
pub uninterp spec fn encoded_reading_keys(readings: EncodedReadings) -> Seq<u128>;

/// Builds packed phrase readings from a vector (`SmallVec::from_vec`):
/// they hold exactly those keys, in order.
#[verifier::external_body]
fn encoded_readings_from_vec(keys: Vec<u128>) -> (r: EncodedReadings)
    ensures
        encoded_reading_keys(r) == keys@,
{
    EncodedReadings { keys: SmallVec::from_vec(keys) }
}

/// The keys of packed phrase readings as a slice (`SmallVec::as_slice`).
#[verifier::external_body]
fn encoded_readings_slice(readings: &EncodedReadings) -> (keys: &[u128])
    ensures
        keys@ == encoded_reading_keys(*readings),
{
    readings.keys.as_slice()
}

/// An override table with every reading packed into its key.
#[derive(Debug)]
pub struct EncodedOverride {
    char_override: Vec<(char, u128)>,
    phrase_override: Vec<(String, EncodedReadings)>,
}

impl EncodedOverride {
    /// The packed character entries.
    pub closed spec fn char_keys(&self) -> Seq<(char, u128)> {
        self.char_override@
    }

    /// The packed phrase entries.
    pub closed spec fn phrase_keys(&self) -> Seq<(Seq<char>, Seq<u128>)> {
        self.phrase_override@.map_values(
            |e: (String, EncodedReadings)| (e.0@, encoded_reading_keys(e.1)),
        )
    }

    /// This table packs the readings of the override table given by its
    /// character and phrase entries, entry for entry.
    pub open spec fn encodes(
        &self,
        chars: Seq<(char, Seq<char>)>,
        phrases: Seq<(Seq<char>, Seq<Seq<char>>)>,
    ) -> bool {
        &&& self.char_keys() == chars.map_values(
            |e: (char, Seq<char>)| (e.0, reading_key(e.1)),
        )
        &&& self.phrase_keys() == phrases.map_values(
            |e: (Seq<char>, Seq<Seq<char>>)| (e.0, reading_keys(e.1)),
        )
    }

    /// Packs every reading of an override table; fails on the first
    /// reading (character entries first) that is not ASCII or is longer
    /// than 16 bytes.
    #[verifier::loop_isolation(false)]
    pub fn from_entries(
        char_override: &Vec<(char, String)>,
        phrase_override: &Vec<(String, Vec<String>)>,
    ) -> (r: Result<Self>)
        ensures
            r is Ok <==> packing_failure(char_entries(char_override@), phrase_entries(phrase_override@))
                is None,
            r matches Ok(e) ==> e.encodes(
                char_entries(char_override@),
                phrase_entries(phrase_override@),
            ),
            r matches Err(e) ==> e matches PinyinSortError::InvalidOverride(m) && packing_failure(
                char_entries(char_override@),
                phrase_entries(phrase_override@),
            ) == Some(m@),
    {
        let ghost chars = char_entries(char_override@);
        let ghost phrases = phrase_entries(phrase_override@);
        let ghost all = override_readings(chars, phrases);
        let ghost char_readings = chars.map_values(|e: (char, Seq<char>)| e.1);
        let ghost phrase_readings = phrases.map_values(|e: (Seq<char>, Seq<Seq<char>>)| e.1);
        assert(all == char_readings + phrase_readings.flatten());
        let mut encoded_chars: Vec<(char, u128)> = Vec::new();
        let mut i: usize = 0;
        while i < char_override.len()
            invariant
                i <= char_override.len(),
                chars == char_entries(char_override@),
                char_readings == chars.map_values(|e: (char, Seq<char>)| e.1),
                first_unpackable(char_readings.take(i as int)) is None,
                encoded_chars@ == chars.take(i as int).map_values(
                    |e: (char, Seq<char>)| (e.0, reading_key(e.1)),
                ),
            decreases char_override.len() - i,
        {
            let reading = char_override[i].1.as_str();
            assert(char_readings[i as int] == reading@);
            match encode_primary_pinyin(reading) {
                Ok(key) => {
                    encoded_chars.push((char_override[i].0, key));
                },
                Err(reason) => {
                    proof {
                        lemma_first_unpackable_prefix(char_readings, i as int);
                        lemma_first_unpackable_append(char_readings, phrase_readings.flatten());
                    }
                    return Err(PinyinSortError::InvalidOverride(packing_error(reading, reason)));
                },
            }
            proof {
                lemma_first_unpackable_extend(char_readings, i as int);
            }
            i += 1;
            assert(encoded_chars@ =~= chars.take(i as int).map_values(
                |e: (char, Seq<char>)| (e.0, reading_key(e.1)),
            ));
        }
        assert(char_readings.take(i as int) =~= char_readings);
        assert(chars.take(i as int) =~= chars);
        let mut encoded_phrases: Vec<(String, EncodedReadings)> = Vec::new();
        let mut j: usize = 0;
        while j < phrase_override.len()
            invariant
                j <= phrase_override.len(),
                chars == char_entries(char_override@),
                phrases == phrase_entries(phrase_override@),
                char_readings == chars.map_values(|e: (char, Seq<char>)| e.1),
                phrase_readings == phrases.map_values(|e: (Seq<char>, Seq<Seq<char>>)| e.1),
                phrase_readings.len() == phrase_override@.len(),
                first_unpackable(char_readings) is None,
                first_unpackable(phrase_readings.take(j as int).flatten()) is None,
                encoded_chars@ == chars.map_values(|e: (char, Seq<char>)| (e.0, reading_key(e.1))),
                encoded_phrases@.map_values(
                    |e: (String, EncodedReadings)| (e.0@, encoded_reading_keys(e.1)),
                ) == phrases.take(j as int).map_values(
                    |e: (Seq<char>, Seq<Seq<char>>)| (e.0, reading_keys(e.1)),
                ),
            decreases phrase_override.len() - j,
        {
            let syllables = &phrase_override[j].1;
            let mut keys: Vec<u128> = Vec::new();
            let mut k: usize = 0;
            while k < syllables.len()
                invariant
                    k <= syllables.len(),
                    first_unpackable(views(syllables@).take(k as int)) is None,
                    keys@ == reading_keys(views(syllables@).take(k as int)),
                decreases syllables.len() - k,
            {
                let reading = syllables[k].as_str();
                assert(views(syllables@)[k as int] == reading@);
                match encode_primary_pinyin(reading) {
                    Ok(key) => {
                        keys.push(key);
                    },
                    Err(reason) => {
                        proof {
                            lemma_first_unpackable_prefix(views(syllables@), k as int);
                            assert(phrase_readings[j as int] == views(syllables@));
                            lemma_first_unpackable_flatten(phrase_readings, j as int);
                            lemma_first_unpackable_append(char_readings, phrase_readings.flatten());
                        }
                        return Err(PinyinSortError::InvalidOverride(packing_error(reading, reason)));
                    },
                }
                proof {
                    lemma_first_unpackable_extend(views(syllables@), k as int);
                }
                k += 1;
                assert(keys@ =~= reading_keys(views(syllables@).take(k as int)));
            }
            assert(views(syllables@).take(k as int) =~= views(syllables@));
            let ghost before = encoded_phrases@;
            let name = phrase_override[j].0.clone();
            let packed = encoded_readings_from_vec(keys);
            assert(phrases[j as int] == (name@, views(syllables@)));
            assert(encoded_reading_keys(packed) == reading_keys(views(syllables@)));
            encoded_phrases.push((name, packed));
            proof {
                assert(phrase_readings[j as int] == views(syllables@));
                lemma_first_unpackable_flatten_extend(phrase_readings, j as int);
            }
            assert(encoded_phrases@ == before.push((name, packed)));
            assert(encoded_phrases@.map_values(
                |e: (String, EncodedReadings)| (e.0@, encoded_reading_keys(e.1)),
            ) =~= before.map_values(
                |e: (String, EncodedReadings)| (e.0@, encoded_reading_keys(e.1)),
            ).push((name@, reading_keys(views(syllables@)))));
            assert(phrases.take(j + 1).map_values(
                |e: (Seq<char>, Seq<Seq<char>>)| (e.0, reading_keys(e.1)),
            ) =~= phrases.take(j as int).map_values(
                |e: (Seq<char>, Seq<Seq<char>>)| (e.0, reading_keys(e.1)),
            ).push((name@, reading_keys(views(syllables@)))));
            j += 1;
            assert(encoded_phrases@.map_values(
                |e: (String, EncodedReadings)| (e.0@, encoded_reading_keys(e.1)),
            ) =~= phrases.take(j as int).map_values(
                |e: (Seq<char>, Seq<Seq<char>>)| (e.0, reading_keys(e.1)),
            ));
        }
        assert(phrases.take(j as int) =~= phrases);
        assert(phrase_readings.take(j as int) =~= phrase_readings);
        proof {
            lemma_first_unpackable_append(char_readings, phrase_readings.flatten());
        }
        let encoded = EncodedOverride { char_override: encoded_chars, phrase_override: encoded_phrases };
        assert(encoded.phrase_keys() =~= phrases.map_values(
            |e: (Seq<char>, Seq<Seq<char>>)| (e.0, reading_keys(e.1)),
        ));
        Ok(encoded)
    }

    /// The packed reading of `character`, if the table has one.
    pub fn char_override(&self, character: char) -> (r: Option<u128>)
        ensures
            r == find_entry(self.char_keys(), character),
    {
        let mut i: usize = 0;
        assert(self.char_keys().skip(0) =~= self.char_keys());
        while i < self.char_override.len()
            invariant
                i <= self.char_override.len(),
                find_entry(self.char_keys(), character) == find_entry(
                    self.char_keys().skip(i as int),
                    character,
                ),
            decreases self.char_override.len() - i,
        {
            assert(self.char_keys().skip(i as int)[0] == self.char_override@[i as int]);
            if self.char_override[i].0 == character {
                return Some(self.char_override[i].1);
            }
            assert(self.char_keys().skip(i as int).drop_first() =~= self.char_keys().skip(i + 1));
            i += 1;
        }
        None
    }

    /// The packed readings of `phrase`, if the table has the phrase.
    pub fn phrase_override(&self, phrase: &str) -> (r: Option<&[u128]>)
        ensures
            match r {
                Some(keys) => find_entry(self.phrase_keys(), phrase@) == Some(keys@),
                None => find_entry(self.phrase_keys(), phrase@) is None,
            },
    {
        let wanted = phrase.to_owned();
        let mut i: usize = 0;
        assert(self.phrase_keys().skip(0) =~= self.phrase_keys());
        while i < self.phrase_override.len()
            invariant
                i <= self.phrase_override.len(),
                wanted@ == phrase@,
                find_entry(self.phrase_keys(), phrase@) == find_entry(
                    self.phrase_keys().skip(i as int),
                    phrase@,
                ),
            decreases self.phrase_override.len() - i,
        {
            assert(self.phrase_keys().skip(i as int)[0] == (
                self.phrase_override@[i as int].0@,
                encoded_reading_keys(self.phrase_override@[i as int].1),
            ));
            if self.phrase_override[i].0 == wanted {
                return Some(encoded_readings_slice(&self.phrase_override[i].1));
            }
            assert(self.phrase_keys().skip(i as int).drop_first() =~= self.phrase_keys().skip(i + 1));
            i += 1;
        }
        None
    }
}

/// The error message for a reading that does not fit a key.
fn packing_error(reading: &str, reason: &'static str) -> (m: String)
    requires
        !reading_packable(reading@),
        reason@ == packing_problem(reading@),
    ensures
        m@ == packing_message(reading@),
{
    let mut m = String::new();
    push_str(&mut m, "override syllable '");
    push_str(&mut m, reading);
    push_str(&mut m, "' cannot be encoded: ");
    push_str(&mut m, reason);
    assert(m@ =~= packing_message(reading@));
    m
}

proof fn lemma_first_unpackable_prefix(readings: Seq<Seq<char>>, i: int)
    requires
        0 <= i < readings.len(),
        first_unpackable(readings.take(i)) is None,
        !reading_packable(readings[i]),
    ensures
        first_unpackable(readings) == Some(readings[i]),
    decreases i,
{
    if i > 0 {
        assert(readings.take(i).drop_first() =~= readings.drop_first().take(i - 1));
        assert(readings.take(i)[0] == readings[0]);
        lemma_first_unpackable_prefix(readings.drop_first(), i - 1);
    }
}

proof fn lemma_first_unpackable_extend(readings: Seq<Seq<char>>, i: int)
    requires
        0 <= i < readings.len(),
        first_unpackable(readings.take(i)) is None,
        reading_packable(readings[i]),
    ensures
        first_unpackable(readings.take(i + 1)) is None,
    decreases i,
{
    if i > 0 {
        assert(readings.take(i).drop_first() =~= readings.drop_first().take(i - 1));
        assert(readings.take(i + 1).drop_first() =~= readings.drop_first().take(i));
        assert(readings.take(i)[0] == readings[0]);
        assert(readings.take(i + 1)[0] == readings[0]);
        assert(readings.drop_first()[i - 1] == readings[i]);
        assert(reading_packable(readings[0]));
        lemma_first_unpackable_extend(readings.drop_first(), i - 1);
        assert(first_unpackable(readings.take(i + 1)) == first_unpackable(
            readings.take(i + 1).drop_first(),
        ));
    } else {
        assert(readings.take(1).len() == 1);
        assert(readings.take(1)[0] == readings[0]);
        assert(readings.take(1).drop_first() =~= Seq::<Seq<char>>::empty());
        assert(first_unpackable(Seq::<Seq<char>>::empty()) is None);
        assert(first_unpackable(readings.take(1)) == first_unpackable(
            readings.take(1).drop_first(),
        ));
    }
}

proof fn lemma_first_unpackable_append(a: Seq<Seq<char>>, b: Seq<Seq<char>>)
    ensures
        first_unpackable(a + b) == match first_unpackable(a) {
            Some(r) => Some(r),
            None => first_unpackable(b),
        },
    decreases a.len(),
{
    if a.len() > 0 {
        assert((a + b).drop_first() =~= a.drop_first() + b);
        lemma_first_unpackable_append(a.drop_first(), b);
    } else {
        assert(a + b =~= b);
    }
}

proof fn lemma_first_unpackable_flatten(groups: Seq<Seq<Seq<char>>>, j: int)
    requires
        0 <= j < groups.len(),
        first_unpackable(groups.take(j).flatten()) is None,
        first_unpackable(groups[j]) is Some,
    ensures
        first_unpackable(groups.flatten()) == first_unpackable(groups[j]),
    decreases groups.len(),
{
    lemma_flatten_split(groups, j);
    lemma_first_unpackable_append(groups.take(j).flatten(), groups.skip(j).flatten());
    assert(groups.skip(j)[0] == groups[j]);
    assert(groups.skip(j).flatten() =~= groups[j] + groups.skip(j).drop_first().flatten()) by {
        lemma_flatten_first(groups.skip(j));
    }
    lemma_first_unpackable_append(groups[j], groups.skip(j).drop_first().flatten());
}

proof fn lemma_first_unpackable_flatten_extend(groups: Seq<Seq<Seq<char>>>, j: int)
    requires
        0 <= j < groups.len(),
        first_unpackable(groups.take(j).flatten()) is None,
        first_unpackable(groups[j]) is None,
    ensures
        first_unpackable(groups.take(j + 1).flatten()) is None,
{
    assert(groups.take(j + 1).drop_last() =~= groups.take(j));
    assert(groups.take(j + 1).last() == groups[j]);
    lemma_flatten_last(groups.take(j + 1));
    lemma_first_unpackable_append(groups.take(j).flatten(), groups[j]);
}

proof fn lemma_flatten_first(groups: Seq<Seq<Seq<char>>>)
    requires
        groups.len() > 0,
    ensures
        groups.flatten() == groups[0] + groups.drop_first().flatten(),
{
}

proof fn lemma_flatten_last(groups: Seq<Seq<Seq<char>>>)
    requires
        groups.len() > 0,
    ensures
        groups.flatten() == groups.drop_last().flatten() + groups.last(),
    decreases groups.len(),
{
    if groups.len() > 1 {
        lemma_flatten_last(groups.drop_first());
        assert(groups.drop_first().drop_last() =~= groups.drop_last().drop_first());
        assert(groups.drop_last()[0] == groups[0]);
        assert((groups[0] + groups.drop_first().drop_last().flatten()) + groups.last()
            =~= groups[0] + (groups.drop_first().drop_last().flatten() + groups.last()));
    } else {
        assert(groups.drop_first() =~= Seq::<Seq<Seq<char>>>::empty());
        assert(groups.drop_last() =~= Seq::<Seq<Seq<char>>>::empty());
        assert(groups[0] + Seq::<Seq<char>>::empty() =~= groups[0]);
        assert(Seq::<Seq<char>>::empty() + groups[0] =~= groups[0]);
    }
}

proof fn lemma_flatten_split(groups: Seq<Seq<Seq<char>>>, j: int)
    requires
        0 <= j <= groups.len(),
    ensures
        groups.flatten() == groups.take(j).flatten() + groups.skip(j).flatten(),
    decreases j,
{
    if j == 0 {
        assert(groups.take(0) =~= Seq::<Seq<Seq<char>>>::empty());
        assert(groups.skip(0) =~= groups);
        assert(Seq::<Seq<char>>::empty() + groups.flatten() =~= groups.flatten());
    } else {
        lemma_flatten_split(groups.drop_first(), j - 1);
        assert(groups.drop_first().take(j - 1) =~= groups.take(j).drop_first());
        assert(groups.drop_first().skip(j - 1) =~= groups.skip(j));
        assert(groups.take(j)[0] == groups[0]);
        assert(groups[0] + (groups.take(j).drop_first().flatten() + groups.skip(j).flatten())
            =~= (groups[0] + groups.take(j).drop_first().flatten()) + groups.skip(j).flatten());
    }
}

/// Byte-wise lexicographic order: `a` sorts strictly before `b` (a proper
/// prefix sorts first).
pub open spec fn lex_less(a: Seq<u8>, b: Seq<u8>) -> bool
    decreases a.len(),
{
    if a.len() == 0 {
        b.len() > 0
    } else if b.len() == 0 {
        false
    } else if a[0] != b[0] {
        a[0] < b[0]
    } else {
        lex_less(a.drop_first(), b.drop_first())
    }
}

/// `bytes` is empty or its last byte is not zero (so zero padding cannot
/// be mistaken for part of it).
pub open spec fn ends_nonzero(bytes: Seq<u8>) -> bool {
    bytes.len() == 0 || bytes.last() != 0
}

proof fn lemma_be_value_front(s: Seq<u8>)
    requires
        s.len() > 0,
    ensures
        be_value(s) == s[0] as nat * pow256((s.len() - 1) as nat) + be_value(s.drop_first()),
    decreases s.len(),
{
    if s.len() == 1 {
        assert(s.drop_last() =~= Seq::<u8>::empty());
        assert(s.drop_first() =~= Seq::<u8>::empty());
        assert(be_value(s) == be_value(s.drop_last()) * 256 + s.last() as nat);
        assert(pow256(0) == 1);
        assert(s[0] as nat * 1 == s[0] as nat);
    } else {
        let d = s.drop_last();
        lemma_be_value_front(d);
        let t = s.drop_first();
        assert(d.drop_first() =~= t.drop_last());
        assert(t.last() == s.last());
        let p = pow256((s.len() - 2) as nat);
        let x = be_value(d.drop_first());
        let s0 = s[0] as nat;
        assert(d[0] == s[0]);
        assert(be_value(d) == s0 * p + x);
        assert(be_value(s) == be_value(d) * 256 + s.last() as nat);
        assert(be_value(t) == be_value(t.drop_last()) * 256 + t.last() as nat);
        assert(pow256((s.len() - 1) as nat) == 256 * p);
        assert((s0 * p + x) * 256 == s0 * (256 * p) + x * 256) by (nonlinear_arith);
    }
}

proof fn lemma_be_value_order(x: Seq<u8>, y: Seq<u8>)
    requires
        x.len() == y.len(),
    ensures
        be_value(x) < be_value(y) <==> lex_less(x, y),
        be_value(x) == be_value(y) <==> x == y,
    decreases x.len(),
{
    if x.len() == 0 {
        assert(x =~= y);
    } else {
        lemma_be_value_front(x);
        lemma_be_value_front(y);
        let n = (x.len() - 1) as nat;
        let p = pow256(n);
        lemma_be_value_bound(x.drop_first());
        lemma_be_value_bound(y.drop_first());
        lemma_be_value_order(x.drop_first(), y.drop_first());
        let bx = be_value(x.drop_first());
        let by = be_value(y.drop_first());
        let x0 = x[0] as nat;
        let y0 = y[0] as nat;
        if x0 < y0 {
            assert(x0 * p + bx < y0 * p + by) by (nonlinear_arith)
                requires
                    x0 < y0,
                    bx < p,
                    by >= 0,
            ;
        } else if x0 > y0 {
            assert(y0 * p + by < x0 * p + bx) by (nonlinear_arith)
                requires
                    y0 < x0,
                    by < p,
                    bx >= 0,
            ;
        } else {
            if x.drop_first() == y.drop_first() {
                assert(x =~= y) by {
                    assert forall|i: int| 0 <= i < x.len() implies x[i] == y[i] by {
                        if i > 0 {
                            assert(x[i] == x.drop_first()[i - 1]);
                            assert(y[i] == y.drop_first()[i - 1]);
                        }
                    }
                }
            }
            if x == y {
                assert(x.drop_first() == y.drop_first());
            }
        }
    }
}

/// All-zero bytes sort strictly before any other bytes of the same length.
proof fn lemma_zeros_first(s: Seq<u8>, i: int)
    requires
        0 <= i < s.len(),
        s[i] != 0,
    ensures
        lex_less(Seq::new(s.len(), |_j: int| 0u8), s),
        Seq::new(s.len(), |_j: int| 0u8) != s,
    decreases s.len(),
{
    let z = Seq::new(s.len(), |_j: int| 0u8);
    assert(z[i] != s[i]);
    if s[0] == 0 {
        assert(i > 0);
        assert(s.drop_first()[i - 1] == s[i]);
        lemma_zeros_first(s.drop_first(), i - 1);
        assert(z.drop_first() =~= Seq::new(s.drop_first().len(), |_j: int| 0u8));
    }
}

/// Nothing sorts strictly before all-zero bytes of the same length.
proof fn lemma_zeros_least(s: Seq<u8>)
    ensures
        !lex_less(s, Seq::new(s.len(), |_j: int| 0u8)),
    decreases s.len(),
{
    let z = Seq::new(s.len(), |_j: int| 0u8);
    if s.len() > 0 {
        assert(z.drop_first() =~= Seq::new(s.drop_first().len(), |_j: int| 0u8));
        lemma_zeros_least(s.drop_first());
    }
}

proof fn lemma_padded_order(a: Seq<u8>, b: Seq<u8>, width: nat)
    requires
        a.len() <= width,
        b.len() <= width,
        ends_nonzero(a),
        ends_nonzero(b),
    ensures
        lex_less(zero_padded(a, width), zero_padded(b, width)) <==> lex_less(a, b),
        zero_padded(a, width) == zero_padded(b, width) <==> a == b,
    decreases width,
{
    let pa = zero_padded(a, width);
    let pb = zero_padded(b, width);
    assert(pa.len() == width && pb.len() == width);
    if a.len() == 0 && b.len() == 0 {
        assert(pa =~= pb);
        assert(a =~= b);
        lemma_lex_less_irreflexive(pa);
    } else if a.len() == 0 {
        assert(pa =~= Seq::new(width, |_j: int| 0u8));
        assert(pb[b.len() - 1] == b.last());
        lemma_zeros_first(pb, b.len() - 1);
    } else if b.len() == 0 {
        assert(pb =~= Seq::new(width, |_j: int| 0u8));
        assert(pa[a.len() - 1] == a.last());
        lemma_zeros_first(pa, a.len() - 1);
        lemma_zeros_least(pa);
    } else {
        assert(pa[0] == a[0]);
        assert(pb[0] == b[0]);
        let w1 = (width - 1) as nat;
        assert(pa.drop_first() =~= zero_padded(a.drop_first(), w1));
        assert(pb.drop_first() =~= zero_padded(b.drop_first(), w1));
        if a.len() > 1 {
            assert(a.drop_first().last() == a.last());
        }
        if b.len() > 1 {
            assert(b.drop_first().last() == b.last());
        }
        lemma_padded_order(a.drop_first(), b.drop_first(), w1);
        if a[0] == b[0] {
            if a.drop_first() == b.drop_first() {
                assert(a =~= b) by {
                    assert forall|i: int| 0 <= i < a.len() implies a[i] == b[i] by {
                        if i > 0 {
                            assert(a[i] == a.drop_first()[i - 1]);
                            assert(b[i] == b.drop_first()[i - 1]);
                        }
                    }
                }
            }
            if a == b {
                assert(a.drop_first() == b.drop_first());
            }
            if pa == pb {
                assert(pa.drop_first() == pb.drop_first());
            }
            if pa.drop_first() == pb.drop_first() {
                assert(pa =~= pb) by {
                    assert forall|i: int| 0 <= i < pa.len() implies pa[i] == pb[i] by {
                        if i > 0 {
                            assert(pa[i] == pa.drop_first()[i - 1]);
                            assert(pb[i] == pb.drop_first()[i - 1]);
                        }
                    }
                }
            }
        } else {
            assert(pa != pb);
            assert(a != b);
        }
    }
}

proof fn lemma_lex_less_irreflexive(s: Seq<u8>)
    ensures
        !lex_less(s, s),
    decreases s.len(),
{
    if s.len() > 0 {
        lemma_lex_less_irreflexive(s.drop_first());
    }
}

/// A packed key fits in a `u128`.
pub proof fn lemma_packed_key_bound(bytes: Seq<u8>)
    requires
        bytes.len() <= 16,
    ensures
        packed_key(bytes) < 0x1_0000_0000_0000_0000_0000_0000_0000_0000,
{
    lemma_be_value_bound(zero_padded(bytes, 16));
    lemma_pow256_16();
}

/// Packing preserves order: for readings of at most 16 bytes whose last
/// byte is not zero (every tone-numbered syllable ends in a digit), one key
/// is below another exactly when the first reading sorts byte-wise before
/// the second, and two keys are equal exactly when the readings are.
pub proof fn lemma_packed_key_order(a: Seq<u8>, b: Seq<u8>)
    requires
        a.len() <= 16,
        b.len() <= 16,
        ends_nonzero(a),
        ends_nonzero(b),
    ensures
        packed_key(a) < packed_key(b) <==> lex_less(a, b),
        packed_key(a) == packed_key(b) <==> a == b,
{
    lemma_padded_order(a, b, 16);
    lemma_be_value_order(zero_padded(a, 16), zero_padded(b, 16));
}

proof fn lemma_char_at_least_nul(c: char)
    ensures
        '\0' <= c,
{
}

/// A valid syllable of at most 16 characters packs into a key.
proof fn lemma_valid_syllable_packs(syllable: Seq<char>, max_tone: u8)
    requires
        syllable_problem(syllable, max_tone) is None,
        syllable.len() <= 16,
    ensures
        reading_packable(syllable),
{
    assert(crate::overrides::all_ascii(syllable));
    assert forall|i: int| 0 <= i < syllable.len() implies '\0' <= #[trigger] syllable[i] <= '\u{7f}' by {
        lemma_char_at_least_nul(syllable[i]);
        assert(syllable[i] <= '\u{7f}');
    }
    vstd::utf8::is_ascii_chars_encode_utf8(syllable);
}

proof fn lemma_valid_syllables_pack(syllables: Seq<Seq<char>>, max_tone: u8)
    requires
        first_syllable_problem(syllables, max_tone) is None,
        forall|j: int| 0 <= j < syllables.len() ==> (#[trigger] syllables[j]).len() <= 16,
    ensures
        first_unpackable(syllables) is None,
    decreases syllables.len(),
{
    if syllables.len() > 0 {
        lemma_valid_syllable_packs(syllables[0], max_tone);
        assert forall|j: int| 0 <= j < syllables.drop_first().len() implies (
        #[trigger] syllables.drop_first()[j]).len() <= 16 by {
            assert(syllables.drop_first()[j] == syllables[j + 1]);
        }
        lemma_valid_syllables_pack(syllables.drop_first(), max_tone);
    }
}

proof fn lemma_valid_chars_pack(chars: Seq<(char, Seq<char>)>, max_tone: u8, kind: Seq<char>)
    requires
        char_override_problem(chars, max_tone, kind) is None,
        forall|i: int| 0 <= i < chars.len() ==> (#[trigger] chars[i]).1.len() <= 16,
    ensures
        first_unpackable(chars.map_values(|e: (char, Seq<char>)| e.1)) is None,
    decreases chars.len(),
{
    let readings = chars.map_values(|e: (char, Seq<char>)| e.1);
    if chars.len() > 0 {
        lemma_valid_syllable_packs(chars[0].1, max_tone);
        assert forall|i: int| 0 <= i < chars.drop_first().len() implies (
        #[trigger] chars.drop_first()[i]).1.len() <= 16 by {
            assert(chars.drop_first()[i] == chars[i + 1]);
        }
        lemma_valid_chars_pack(chars.drop_first(), max_tone, kind);
        assert(readings.drop_first() =~= chars.drop_first().map_values(|e: (char, Seq<char>)| e.1));
        assert(readings[0] == chars[0].1);
    }
}

proof fn lemma_valid_phrases_pack(
    phrases: Seq<(Seq<char>, Seq<Seq<char>>)>,
    max_tone: u8,
    kind: Seq<char>,
)
    requires
        phrase_override_problem(phrases, max_tone, kind) is None,
        forall|i: int, j: int|
            0 <= i < phrases.len() && 0 <= j < phrases[i].1.len() ==> (#[trigger] phrases[i].1[j]).len()
                <= 16,
    ensures
        first_unpackable(phrases.map_values(|e: (Seq<char>, Seq<Seq<char>>)| e.1).flatten()) is None,
    decreases phrases.len(),
{
    let groups = phrases.map_values(|e: (Seq<char>, Seq<Seq<char>>)| e.1);
    if phrases.len() > 0 {
        assert(phrase_entry_problem(phrases[0].0, phrases[0].1, max_tone, kind) is None);
        assert forall|j: int| 0 <= j < phrases[0].1.len() implies (#[trigger] phrases[0].1[j]).len()
            <= 16 by {
            assert(phrases[0].1[j].len() <= 16);
        }
        lemma_valid_syllables_pack(phrases[0].1, max_tone);
        assert forall|i: int, j: int|
            0 <= i < phrases.drop_first().len() && 0 <= j < phrases.drop_first()[i].1.len() implies (
            #[trigger] phrases.drop_first()[i].1[j]).len() <= 16 by {
            assert(phrases.drop_first()[i] == phrases[i + 1]);
        }
        lemma_valid_phrases_pack(phrases.drop_first(), max_tone, kind);
        assert(groups.drop_first() =~= phrases.drop_first().map_values(
            |e: (Seq<char>, Seq<Seq<char>>)| e.1,
        ));
        lemma_flatten_first(groups);
        lemma_first_unpackable_append(groups[0], groups.drop_first().flatten());
    } else {
        assert(groups =~= Seq::<Seq<Seq<char>>>::empty());
    }
}

/// A table that passes validation packs into keys, provided no syllable is
/// longer than 16 characters: validation checks that syllables are ASCII
/// but not how long they are.
pub proof fn lemma_validated_table_packs(
    chars: Seq<(char, Seq<char>)>,
    phrases: Seq<(Seq<char>, Seq<Seq<char>>)>,
    max_tone: u8,
    kind: Seq<char>,
)
    requires
        override_problem(chars, phrases, max_tone, kind) is None,
        forall|i: int| 0 <= i < chars.len() ==> (#[trigger] chars[i]).1.len() <= 16,
        forall|i: int, j: int|
            0 <= i < phrases.len() && 0 <= j < phrases[i].1.len() ==> (#[trigger] phrases[i].1[j]).len()
                <= 16,
    ensures
        packing_failure(chars, phrases) is None,
{
    lemma_valid_chars_pack(chars, max_tone, kind);
    lemma_valid_phrases_pack(phrases, max_tone, kind);
    lemma_first_unpackable_append(
        chars.map_values(|e: (char, Seq<char>)| e.1),
        phrases.map_values(|e: (Seq<char>, Seq<Seq<char>>)| e.1).flatten(),
    );
}

} // verus!
