//! Pronunciation override tables and their validation.
//!
//! An override table assigns readings to single characters
//! (`char_override`) and to whole phrases (`phrase_override`, one syllable
//! per character). Phrase overrides take precedence over character
//! overrides. Each character and each phrase is a key of its section and
//! is listed once: validation refuses a table that lists a key twice (a
//! table that skipped validation is read by its first entry for a key).
use vstd::prelude::*;

use crate::error::{PinyinSortError, Result};
use crate::table::find_entry;
use crate::text::{chars_of, decimal, push_char, push_decimal, push_str, views};

verus! {

/// Override table for the Mandarin pinyin collator. Syllables are
/// lowercase ASCII letters followed by a tone digit `1-5` (`5` for the
/// neutral tone).
#[derive(Debug, Default, PartialEq, Eq)]
pub struct PinyinOverride {
    pub char_override: Vec<(char, String)>,
    pub phrase_override: Vec<(String, Vec<String>)>,
}

/// Override table for the Cantonese Jyutping collator. The schema mirrors
/// [`PinyinOverride`] but syllables end in a tone digit `1-6`.
#[derive(Debug, Default, PartialEq, Eq)]
pub struct JyutpingOverride {
    pub char_override: Vec<(char, String)>,
    pub phrase_override: Vec<(String, Vec<String>)>,
}

/// Highest tone digit of Mandarin pinyin.
pub const PINYIN_MAX_TONE: u8 = 5;

/// Highest tone digit of Cantonese Jyutping.
pub const JYUTPING_MAX_TONE: u8 = 6;

/// The character entries of a table as plain values.
pub open spec fn char_entries(entries: Seq<(char, String)>) -> Seq<(char, Seq<char>)> {
    entries.map_values(|e: (char, String)| (e.0, e.1@))
}

/// The phrase entries of a table as plain values.
pub open spec fn phrase_entries(entries: Seq<(String, Vec<String>)>) -> Seq<(Seq<char>, Seq<Seq<char>>)> {
    entries.map_values(|e: (String, Vec<String>)| (e.0@, views(e.1@)))
}

/// Every character is ASCII.
pub open spec fn all_ascii(s: Seq<char>) -> bool {
    forall|i: int| 0 <= i < s.len() ==> #[trigger] s[i] <= '\u{7f}'
}

/// Every character is a lowercase ASCII letter.
pub open spec fn all_lowercase(s: Seq<char>) -> bool {
    forall|i: int| 0 <= i < s.len() ==> 'a' <= #[trigger] s[i] <= 'z'
}

/// `c` is a tone digit from `1` to `max_tone`.
pub open spec fn is_tone_digit(c: char, max_tone: u8) -> bool {
    49 <= (c as u32) <= 48 + max_tone
}

/// Why `syllable` is not a valid tone-numbered syllable, if it is not.
///
/// A syllable is lowercase ASCII letters followed by a tone digit `1` to
/// `max_tone`. Toneless syllables are refused: the sort-key encoding pads
/// with zero bytes, which would place them before every toned variant.
pub open spec fn syllable_problem(syllable: Seq<char>, max_tone: u8) -> Option<Seq<char>> {
    if syllable.len() == 0 {
        Some("syllable is empty"@)
    } else if !all_ascii(syllable) {
        Some("syllable must be ASCII (use 'v' instead of 'ü')"@)
    } else if !is_tone_digit(syllable.last(), max_tone) {
        if max_tone == 5 {
            Some("syllable must end with a tone digit 1-5 (use 5 for neutral / light tone)"@)
        } else if max_tone == 6 {
            Some("syllable must end with a tone digit 1-6"@)
        } else {
            Some("syllable must end with a valid tone digit"@)
        }
    } else if syllable.len() == 1 {
        Some("syllable must contain at least one letter before the tone digit"@)
    } else if !all_lowercase(syllable.drop_last()) {
        Some("syllable letters must be lowercase ASCII"@)
    } else {
        None
    }
}

/// The first invalid syllable of `syllables` and why it is invalid.
pub open spec fn first_syllable_problem(syllables: Seq<Seq<char>>, max_tone: u8) -> Option<
    (Seq<char>, Seq<char>),
>
    decreases syllables.len(),
{
    if syllables.len() == 0 {
        None
    } else {
        match syllable_problem(syllables[0], max_tone) {
            Some(reason) => Some((syllables[0], reason)),
            None => first_syllable_problem(syllables.drop_first(), max_tone),
        }
    }
}

/// The message for an invalid syllable in a character entry.
pub open spec fn char_entry_message(
    character: char,
    syllable: Seq<char>,
    kind: Seq<char>,
    reason: Seq<char>,
) -> Seq<char> {
    "char_override entry '"@ + seq![character] + "' has invalid "@ + kind + " '"@ + syllable
        + "': "@ + reason
}

/// The message for an invalid syllable in a phrase entry.
pub open spec fn phrase_entry_message(
    phrase: Seq<char>,
    syllable: Seq<char>,
    kind: Seq<char>,
    reason: Seq<char>,
) -> Seq<char> {
    "phrase_override entry '"@ + phrase + "' has invalid "@ + kind + " '"@ + syllable + "': "@
        + reason
}

/// The message for a phrase entry with the wrong number of syllables.
pub open spec fn phrase_length_message(
    phrase: Seq<char>,
    syllable_count: nat,
    kind: Seq<char>,
) -> Seq<char> {
    "phrase_override entry '"@ + phrase + "' has "@ + decimal(phrase.len()) + " characters but "@
        + decimal(syllable_count) + " "@ + kind + " values"@
}

/// The message for the first invalid character entry, if any.
pub open spec fn char_override_problem(
    entries: Seq<(char, Seq<char>)>,
    max_tone: u8,
    kind: Seq<char>,
) -> Option<Seq<char>>
    decreases entries.len(),
{
    if entries.len() == 0 {
        None
    } else {
        match syllable_problem(entries[0].1, max_tone) {
            Some(reason) => Some(char_entry_message(entries[0].0, entries[0].1, kind, reason)),
            None => char_override_problem(entries.drop_first(), max_tone, kind),
        }
    }
}

/// The message for a phrase entry that is not valid, if it is not: an empty
/// phrase, a syllable count other than the phrase's character count, or an
/// invalid syllable.
pub open spec fn phrase_entry_problem(
    phrase: Seq<char>,
    syllables: Seq<Seq<char>>,
    max_tone: u8,
    kind: Seq<char>,
) -> Option<Seq<char>> {
    if phrase.len() == 0 {
        Some("phrase_override key cannot be empty"@)
    } else if phrase.len() != syllables.len() {
        Some(phrase_length_message(phrase, syllables.len(), kind))
    } else {
        match first_syllable_problem(syllables, max_tone) {
            Some((syllable, reason)) => Some(phrase_entry_message(phrase, syllable, kind, reason)),
            None => None,
        }
    }
}

/// The message for the first invalid phrase entry, if any.
pub open spec fn phrase_override_problem(
    entries: Seq<(Seq<char>, Seq<Seq<char>>)>,
    max_tone: u8,
    kind: Seq<char>,
) -> Option<Seq<char>>
    decreases entries.len(),
{
    if entries.len() == 0 {
        None
    } else {
        match phrase_entry_problem(entries[0].0, entries[0].1, max_tone, kind) {
            Some(message) => Some(message),
            None => phrase_override_problem(entries.drop_first(), max_tone, kind),
        }
    }
}

/// The message for the first problem of an override table, character
/// entries first, or `None` when the table is valid.
pub open spec fn override_problem(
    char_override: Seq<(char, Seq<char>)>,
    phrase_override: Seq<(Seq<char>, Seq<Seq<char>>)>,
    max_tone: u8,
    kind: Seq<char>,
) -> Option<Seq<char>> {
    match char_override_problem(char_override, max_tone, kind) {
        Some(message) => Some(message),
        None => match first_repeated_key(char_override, 0) {
            Some(character) => Some(repeated_char_message(character)),
            None => match phrase_override_problem(phrase_override, max_tone, kind) {
                Some(message) => Some(message),
                None => match first_repeated_key(phrase_override, 0) {
                    Some(phrase) => Some(repeated_phrase_message(phrase)),
                    None => None,
                },
            },
        },
    }
}

/// Entry `i` has a key that a later entry has too.
pub open spec fn key_repeats<K, V>(entries: Seq<(K, V)>, i: int) -> bool {
    exists|j: int| i < j < entries.len() && #[trigger] entries[j].0 == entries[i].0
}

/// The key of the first entry from `i` on whose key a later entry has too.
pub open spec fn first_repeated_key<K, V>(entries: Seq<(K, V)>, i: int) -> Option<K>
    decreases entries.len() - i,
{
    if i < 0 || i >= entries.len() {
        None
    } else if key_repeats(entries, i) {
        Some(entries[i].0)
    } else {
        first_repeated_key(entries, i + 1)
    }
}

/// The message for a character listed twice.
pub open spec fn repeated_char_message(character: char) -> Seq<char> {
    "char_override entry '"@ + seq![character] + "' is listed more than once"@
}

/// The message for a phrase listed twice.
pub open spec fn repeated_phrase_message(phrase: Seq<char>) -> Seq<char> {
    "phrase_override entry '"@ + phrase + "' is listed more than once"@
}

/// The first character listed twice, if any.
fn repeated_char(entries: &Vec<(char, String)>) -> (r: Option<char>)
    ensures
        r == first_repeated_key(char_entries(entries@), 0),
{
    let ghost v = char_entries(entries@);
    let mut i: usize = 0;
    while i < entries.len()
        invariant
            i <= entries.len(),
            v == char_entries(entries@),
            first_repeated_key(v, 0) == first_repeated_key(v, i as int),
        decreases entries.len() - i,
    {
        let mut j: usize = i + 1;
        while j < entries.len()
            invariant
                i < entries.len(),
                i + 1 <= j <= entries.len(),
                v == char_entries(entries@),
                first_repeated_key(v, 0) == first_repeated_key(v, i as int),
                forall|k: int| i < k < j ==> #[trigger] v[k].0 != v[i as int].0,
            decreases entries.len() - j,
        {
            if entries[j].0 == entries[i].0 {
                assert(v[j as int].0 == v[i as int].0);
                assert(key_repeats(v, i as int));
                return Some(entries[i].0);
            }
            j += 1;
        }
        assert(!key_repeats(v, i as int));
        i += 1;
    }
    None
}

/// The first phrase listed twice, if any.
fn repeated_phrase(entries: &Vec<(String, Vec<String>)>) -> (r: Option<String>)
    ensures
        match r {
            Some(p) => first_repeated_key(phrase_entries(entries@), 0) == Some(p@),
            None => first_repeated_key(phrase_entries(entries@), 0) is None,
        },
{
    let ghost v = phrase_entries(entries@);
    let mut i: usize = 0;
    while i < entries.len()
        invariant
            i <= entries.len(),
            v == phrase_entries(entries@),
            first_repeated_key(v, 0) == first_repeated_key(v, i as int),
        decreases entries.len() - i,
    {
        let mut j: usize = i + 1;
        while j < entries.len()
            invariant
                i < entries.len(),
                i + 1 <= j <= entries.len(),
                v == phrase_entries(entries@),
                first_repeated_key(v, 0) == first_repeated_key(v, i as int),
                forall|k: int| i < k < j ==> #[trigger] v[k].0 != v[i as int].0,
            decreases entries.len() - j,
        {
            if entries[j].0 == entries[i].0 {
                assert(v[j as int].0 == v[i as int].0);
                assert(key_repeats(v, i as int));
                return Some(entries[i].0.clone());
            }
            j += 1;
        }
        assert(!key_repeats(v, i as int));
        i += 1;
    }
    None
}

/// `Ok` when the table has no problem, else the `InvalidOverride` error for
/// its first problem.
pub open spec fn validation_result(r: Result<()>, problem: Option<Seq<char>>) -> bool {
    &&& r is Ok <==> problem is None
    &&& r matches Err(e) ==> (e matches PinyinSortError::InvalidOverride(m) && problem == Some(m@))
}

/// The readings of a string vector, as plain values.
pub open spec fn views_of(v: &Vec<String>) -> Seq<Seq<char>> {
    crate::text::views(v@)
}

/// The first character entry for `character`.
pub(crate) fn char_reading(entries: &Vec<(char, String)>, character: char) -> (r: Option<String>)
    ensures
        match r {
            Some(s) => find_entry(char_entries(entries@), character) == Some(s@),
            None => find_entry(char_entries(entries@), character) is None,
        },
{
    let mut i: usize = 0;
    let ghost table = char_entries(entries@);
    assert(table.skip(0) =~= table);
    while i < entries.len()
        invariant
            i <= entries.len(),
            table == char_entries(entries@),
            find_entry(table, character) == find_entry(table.skip(i as int), character),
        decreases entries.len() - i,
    {
        assert(table.skip(i as int)[0] == (
            entries@[i as int].0,
            entries@[i as int].1@,
        ));
        if entries[i].0 == character {
            return Some(entries[i].1.clone());
        }
        assert(table.skip(i as int).drop_first() =~= table.skip(i + 1));
        i += 1;
    }
    None
}

/// The first phrase entry for `phrase`.
pub(crate) fn phrase_readings<'a>(entries: &'a Vec<(String, Vec<String>)>, phrase: &str) -> (r: Option<&'a Vec<String>>)
    ensures
        match r {
            Some(v) => find_entry(phrase_entries(entries@), phrase@) == Some(views_of(v)),
            None => find_entry(phrase_entries(entries@), phrase@) is None,
        },
{
    let wanted = phrase.to_owned();
    let mut i: usize = 0;
    let ghost table = phrase_entries(entries@);
    assert(table.skip(0) =~= table);
    while i < entries.len()
        invariant
            i <= entries.len(),
            wanted@ == phrase@,
            table == phrase_entries(entries@),
            find_entry(table, phrase@) == find_entry(table.skip(i as int), phrase@),
        decreases entries.len() - i,
    {
        assert(table.skip(i as int)[0] == (
            entries@[i as int].0@,
            views_of(&entries@[i as int].1),
        ));
        if entries[i].0 == wanted {
            return Some(&entries[i].1);
        }
        assert(table.skip(i as int).drop_first() =~= table.skip(i + 1));
        i += 1;
    }
    None
}

/// A copy of character entries, entry for entry.
fn copy_char_entries(entries: &Vec<(char, String)>) -> (r: Vec<(char, String)>)
    ensures
        char_entries(r@) == char_entries(entries@),
{
    let mut r: Vec<(char, String)> = Vec::new();
    let mut i: usize = 0;
    while i < entries.len()
        invariant
            i <= entries.len(),
            char_entries(r@) == char_entries(entries@).take(i as int),
        decreases entries.len() - i,
    {
        let entry = (entries[i].0, entries[i].1.clone());
        let ghost before = r@;
        r.push(entry);
        assert(char_entries(r@) =~= char_entries(before).push((entry.0, entry.1@)));
        assert(char_entries(entries@).take(i + 1) =~= char_entries(entries@).take(i as int).push(
            char_entries(entries@)[i as int],
        ));
        i += 1;
    }
    assert(char_entries(entries@).take(i as int) =~= char_entries(entries@));
    r
}

/// A copy of a list of syllables.
fn copy_strings(items: &Vec<String>) -> (r: Vec<String>)
    ensures
        views(r@) == views(items@),
{
    let mut r: Vec<String> = Vec::new();
    let mut i: usize = 0;
    while i < items.len()
        invariant
            i <= items.len(),
            views(r@) == views(items@).take(i as int),
        decreases items.len() - i,
    {
        let item = items[i].clone();
        let ghost before = r@;
        r.push(item);
        assert(views(r@) =~= views(before).push(item@));
        assert(views(items@).take(i + 1) =~= views(items@).take(i as int).push(views(items@)[i as int]));
        i += 1;
    }
    assert(views(items@).take(i as int) =~= views(items@));
    r
}

/// A copy of phrase entries, entry for entry.
fn copy_phrase_entries(entries: &Vec<(String, Vec<String>)>) -> (r: Vec<(String, Vec<String>)>)
    ensures
        phrase_entries(r@) == phrase_entries(entries@),
{
    let mut r: Vec<(String, Vec<String>)> = Vec::new();
    let mut i: usize = 0;
    while i < entries.len()
        invariant
            i <= entries.len(),
            phrase_entries(r@) == phrase_entries(entries@).take(i as int),
        decreases entries.len() - i,
    {
        let entry = (entries[i].0.clone(), copy_strings(&entries[i].1));
        let ghost before = r@;
        r.push(entry);
        assert(phrase_entries(r@) =~= phrase_entries(before).push((entry.0@, views(entry.1@))));
        assert(phrase_entries(entries@).take(i + 1) =~= phrase_entries(entries@).take(i as int).push(
            phrase_entries(entries@)[i as int],
        ));
        i += 1;
    }
    assert(phrase_entries(entries@).take(i as int) =~= phrase_entries(entries@));
    r
}

impl Clone for PinyinOverride {
    /// A copy with the same entries.
    fn clone(&self) -> (r: Self)
        ensures
            r.char_view() == self.char_view(),
            r.phrase_view() == self.phrase_view(),
    {
        PinyinOverride {
            char_override: copy_char_entries(&self.char_override),
            phrase_override: copy_phrase_entries(&self.phrase_override),
        }
    }
}

impl Clone for JyutpingOverride {
    /// A copy with the same entries.
    fn clone(&self) -> (r: Self)
        ensures
            r.char_view() == self.char_view(),
            r.phrase_view() == self.phrase_view(),
    {
        JyutpingOverride {
            char_override: copy_char_entries(&self.char_override),
            phrase_override: copy_phrase_entries(&self.phrase_override),
        }
    }
}

impl PinyinOverride {
    /// The character entries as plain values.
    pub open spec fn char_view(&self) -> Seq<(char, Seq<char>)> {
        char_entries(self.char_override@)
    }

    /// The phrase entries as plain values.
    pub open spec fn phrase_view(&self) -> Seq<(Seq<char>, Seq<Seq<char>>)> {
        phrase_entries(self.phrase_override@)
    }

    /// Checks every syllable (lowercase letters and a tone digit `1-5`),
    /// that every phrase is non-empty with one syllable per character, and
    /// that no character or phrase is listed twice.
    pub fn validate(&self) -> (r: Result<()>)
        ensures
            validation_result(
                r,
                override_problem(self.char_view(), self.phrase_view(), PINYIN_MAX_TONE, "pinyin"@),
            ),
            r is Ok ==> forall|i: int|
                0 <= i < self.phrase_view().len() ==> (#[trigger] self.phrase_view()[i]).0.len()
                    == self.phrase_view()[i].1.len(),
            r is Ok ==> forall|i: int|
                0 <= i < self.char_view().len() ==> ((#[trigger] self.char_view()[i]).1.len() >= 2
                    && '1' <= self.char_view()[i].1.last()
                    && (self.char_view()[i].1.last() as int) <= ('5' as int)),
    {
        let r = validate_phrase_set(&self.char_override, &self.phrase_override, PINYIN_MAX_TONE, "pinyin");
        proof {
            if r is Ok {
                lemma_valid_table(self.char_view(), self.phrase_view(), PINYIN_MAX_TONE, "pinyin"@);
            }
        }
        r
    }
}

impl JyutpingOverride {
    /// The character entries as plain values.
    pub open spec fn char_view(&self) -> Seq<(char, Seq<char>)> {
        char_entries(self.char_override@)
    }

    /// The phrase entries as plain values.
    pub open spec fn phrase_view(&self) -> Seq<(Seq<char>, Seq<Seq<char>>)> {
        phrase_entries(self.phrase_override@)
    }

    /// Checks every syllable (lowercase letters and a tone digit `1-6`),
    /// that every phrase is non-empty with one syllable per character, and
    /// that no character or phrase is listed twice.
    pub fn validate(&self) -> (r: Result<()>)
        ensures
            validation_result(
                r,
                override_problem(
                    self.char_view(),
                    self.phrase_view(),
                    JYUTPING_MAX_TONE,
                    "jyutping"@,
                ),
            ),
            r is Ok ==> forall|i: int|
                0 <= i < self.phrase_view().len() ==> (#[trigger] self.phrase_view()[i]).0.len()
                    == self.phrase_view()[i].1.len(),
            r is Ok ==> forall|i: int|
                0 <= i < self.char_view().len() ==> ((#[trigger] self.char_view()[i]).1.len() >= 2
                    && '1' <= self.char_view()[i].1.last()
                    && (self.char_view()[i].1.last() as int) <= ('6' as int)),
    {
        let r = validate_phrase_set(
            &self.char_override,
            &self.phrase_override,
            JYUTPING_MAX_TONE,
            "jyutping",
        );
        proof {
            if r is Ok {
                lemma_valid_table(self.char_view(), self.phrase_view(), JYUTPING_MAX_TONE, "jyutping"@);
            }
        }
        r
    }
}

/// Validates both sections of an override table.
pub fn validate_phrase_set(
    char_override: &Vec<(char, String)>,
    phrase_override: &Vec<(String, Vec<String>)>,
    max_tone: u8,
    syllable_kind: &str,
) -> (r: Result<()>)
    ensures
        validation_result(
            r,
            override_problem(
                char_entries(char_override@),
                phrase_entries(phrase_override@),
                max_tone,
                syllable_kind@,
            ),
        ),
{
    let ghost kind = syllable_kind@;
    let ghost chars = char_entries(char_override@);
    let mut i: usize = 0;
    assert(chars.skip(0) =~= chars);
    while i < char_override.len()
        invariant
            i <= char_override.len(),
            chars == char_entries(char_override@),
            kind == syllable_kind@,
            char_override_problem(chars, max_tone, kind) == char_override_problem(
                chars.skip(i as int),
                max_tone,
                kind,
            ),
        decreases char_override.len() - i,
    {
        let (character, syllable) = (char_override[i].0, &char_override[i].1);
        assert(chars.skip(i as int)[0] == (character, syllable@));
        match validate_syllable(syllable.as_str(), max_tone) {
            Err(reason) => {
                let mut message = String::new();
                push_str(&mut message, "char_override entry '");
                push_char(&mut message, character);
                push_str(&mut message, "' has invalid ");
                push_str(&mut message, syllable_kind);
                push_str(&mut message, " '");
                push_str(&mut message, syllable.as_str());
                push_str(&mut message, "': ");
                push_str(&mut message, reason);
                assert(message@ =~= char_entry_message(character, syllable@, kind, reason@));
                return Err(PinyinSortError::InvalidOverride(message));
            },
            Ok(()) => {},
        }
        assert(chars.skip(i as int).drop_first() =~= chars.skip(i + 1));
        i += 1;
    }
    assert(chars.skip(i as int) =~= Seq::<(char, Seq<char>)>::empty());
    if let Some(character) = repeated_char(char_override) {
        let mut message = String::new();
        push_str(&mut message, "char_override entry '");
        push_char(&mut message, character);
        push_str(&mut message, "' is listed more than once");
        assert(message@ =~= repeated_char_message(character));
        return Err(PinyinSortError::InvalidOverride(message));
    }
    let ghost phrases = phrase_entries(phrase_override@);
    let mut j: usize = 0;
    assert(phrases.skip(0) =~= phrases);
    while j < phrase_override.len()
        invariant
            j <= phrase_override.len(),
            phrases == phrase_entries(phrase_override@),
            chars == char_entries(char_override@),
            kind == syllable_kind@,
            char_override_problem(chars, max_tone, kind) is None,
            first_repeated_key(chars, 0) is None,
            phrase_override_problem(phrases, max_tone, kind) == phrase_override_problem(
                phrases.skip(j as int),
                max_tone,
                kind,
            ),
        decreases phrase_override.len() - j,
    {
        let phrase = &phrase_override[j].0;
        let syllables = &phrase_override[j].1;
        assert(phrases.skip(j as int)[0] == (phrase@, views(syllables@)));
        match validate_phrase_entry(phrase.as_str(), syllables, max_tone, syllable_kind) {
            Err(message) => {
                return Err(PinyinSortError::InvalidOverride(message));
            },
            Ok(()) => {},
        }
        assert(phrases.skip(j as int).drop_first() =~= phrases.skip(j + 1));
        j += 1;
    }
    assert(phrases.skip(j as int) =~= Seq::<(Seq<char>, Seq<Seq<char>>)>::empty());
    if let Some(phrase) = repeated_phrase(phrase_override) {
        let mut message = String::new();
        push_str(&mut message, "phrase_override entry '");
        push_str(&mut message, phrase.as_str());
        push_str(&mut message, "' is listed more than once");
        assert(message@ =~= repeated_phrase_message(phrase@));
        return Err(PinyinSortError::InvalidOverride(message));
    }
    Ok(())
}

/// Validates one phrase entry; the error is its message.
fn validate_phrase_entry(
    phrase: &str,
    syllables: &Vec<String>,
    max_tone: u8,
    syllable_kind: &str,
) -> (r: std::result::Result<(), String>)
    ensures
        r is Ok <==> phrase_entry_problem(phrase@, views(syllables@), max_tone, syllable_kind@) is None,
        r matches Err(m) ==> phrase_entry_problem(phrase@, views(syllables@), max_tone, syllable_kind@)
            == Some(m@),
        r is Ok ==> phrase@.len() == syllables@.len() && phrase@.len() > 0,
{
    let ghost kind = syllable_kind@;
    let ghost sv = views(syllables@);
    let chars = chars_of(phrase);
    if chars.len() == 0 {
        return Err("phrase_override key cannot be empty".to_owned());
    }
    if chars.len() != syllables.len() {
        let mut message = String::new();
        push_str(&mut message, "phrase_override entry '");
        push_str(&mut message, phrase);
        push_str(&mut message, "' has ");
        push_decimal(&mut message, chars.len());
        push_str(&mut message, " characters but ");
        push_decimal(&mut message, syllables.len());
        push_str(&mut message, " ");
        push_str(&mut message, syllable_kind);
        push_str(&mut message, " values");
        assert(message@ =~= phrase_length_message(phrase@, syllables.len() as nat, kind));
        return Err(message);
    }
    let mut k: usize = 0;
    assert(sv.skip(0) =~= sv);
    while k < syllables.len()
        invariant
            k <= syllables.len(),
            sv == views(syllables@),
            kind == syllable_kind@,
            phrase@.len() == sv.len(),
            phrase@.len() != 0,
            first_syllable_problem(sv, max_tone) == first_syllable_problem(sv.skip(k as int), max_tone),
        decreases syllables.len() - k,
    {
        assert(sv.skip(k as int)[0] == syllables@[k as int]@);
        match validate_syllable(syllables[k].as_str(), max_tone) {
            Err(reason) => {
                let mut message = String::new();
                push_str(&mut message, "phrase_override entry '");
                push_str(&mut message, phrase);
                push_str(&mut message, "' has invalid ");
                push_str(&mut message, syllable_kind);
                push_str(&mut message, " '");
                push_str(&mut message, syllables[k].as_str());
                push_str(&mut message, "': ");
                push_str(&mut message, reason);
                assert(message@ =~= phrase_entry_message(phrase@, syllables@[k as int]@, kind, reason@));
                return Err(message);
            },
            Ok(()) => {},
        }
        assert(sv.skip(k as int).drop_first() =~= sv.skip(k + 1));
        k += 1;
    }
    assert(sv.skip(k as int) =~= Seq::<Seq<char>>::empty());
    assert(phrase@.len() == sv.len());
    Ok(())
}

/// Validates a single tone-numbered syllable; the error is the reason.
pub fn validate_syllable(syllable: &str, max_tone: u8) -> (r: std::result::Result<(), &'static str>)
    ensures
        r is Ok <==> syllable_problem(syllable@, max_tone) is None,
        r matches Err(reason) ==> syllable_problem(syllable@, max_tone) == Some(reason@),
        r is Ok ==> syllable@.len() >= 2 && '1' <= syllable@.last() && syllable@.last() != '0' && (
        syllable@.last() as int) <= ('0' as int) + max_tone,
{
    let chars = chars_of(syllable);
    if chars.len() == 0 {
        return Err("syllable is empty");
    }
    let mut i: usize = 0;
    while i < chars.len()
        invariant
            chars@ == syllable@,
            i <= chars.len(),
            forall|k: int| 0 <= k < i ==> #[trigger] chars@[k] <= '\u{7f}',
        decreases chars.len() - i,
    {
        if chars[i] > '\u{7f}' {
            return Err("syllable must be ASCII (use 'v' instead of 'ü')");
        }
        i += 1;
    }
    assert(all_ascii(syllable@));
    let last = chars[chars.len() - 1];
    let code = last as u32;
    if !(49 <= code && code <= 48 + max_tone as u32) {
        if max_tone == 5 {
            return Err("syllable must end with a tone digit 1-5 (use 5 for neutral / light tone)");
        } else if max_tone == 6 {
            return Err("syllable must end with a tone digit 1-6");
        } else {
            return Err("syllable must end with a valid tone digit");
        }
    }
    assert(is_tone_digit(syllable@.last(), max_tone));
    if chars.len() == 1 {
        return Err("syllable must contain at least one letter before the tone digit");
    }
    let mut k: usize = 0;
    while k + 1 < chars.len()
        invariant
            chars@ == syllable@,
            chars.len() >= 2,
            all_ascii(syllable@),
            is_tone_digit(syllable@.last(), max_tone),
            k + 1 <= chars.len(),
            forall|m: int| 0 <= m < k ==> 'a' <= #[trigger] chars@[m] <= 'z',
        decreases chars.len() - k,
    {
        if !('a' <= chars[k] && chars[k] <= 'z') {
            assert(chars@.drop_last()[k as int] == chars@[k as int]);
            assert(!all_lowercase(syllable@.drop_last()));
            return Err("syllable letters must be lowercase ASCII");
        }
        k += 1;
    }
    assert(all_lowercase(syllable@.drop_last())) by {
        assert forall|m: int| 0 <= m < syllable@.drop_last().len() implies 'a'
            <= #[trigger] syllable@.drop_last()[m] <= 'z' by {
            assert(syllable@.drop_last()[m] == chars@[m]);
        }
    }
    proof {
        lemma_valid_syllable_shape(syllable@, max_tone);
    }
    Ok(())
}

/// A syllable passes validation exactly when it is one or more lowercase
/// ASCII letters followed by one tone digit from `1` to `max_tone` (for any
/// tone limit up to 9). `0` is never a tone digit.
pub proof fn lemma_valid_syllable_shape(syllable: Seq<char>, max_tone: u8)
    ensures
        syllable_problem(syllable, max_tone) is None ==> syllable.len() >= 2,
        syllable_problem(syllable, max_tone) is None ==> forall|i: int|
            0 <= i < syllable.len() - 1 ==> 'a' <= #[trigger] syllable[i] <= 'z',
        syllable_problem(syllable, max_tone) is None ==> '1' <= syllable.last() && syllable.last() != '0'
            && (syllable.last() as int) <= ('0' as int) + max_tone,
        (max_tone <= 9 && syllable.len() >= 2 && (forall|i: int|
            0 <= i < syllable.len() - 1 ==> 'a' <= #[trigger] syllable[i] <= 'z') && '1' <= syllable.last()
            && (syllable.last() as int) <= ('0' as int) + max_tone) ==> syllable_problem(syllable, max_tone)
            is None,
{
    let n = syllable.len();
    if syllable_problem(syllable, max_tone) is None {
        lemma_char_code(syllable.last());
        assert forall|i: int| 0 <= i < n - 1 implies 'a' <= #[trigger] syllable[i] <= 'z' by {
            assert(syllable.drop_last()[i] == syllable[i]);
        }
    }
    if max_tone <= 9 && n >= 2 && (forall|i: int| 0 <= i < n - 1 ==> 'a' <= #[trigger] syllable[i] <= 'z')
        && '1' <= syllable.last() && (syllable.last() as int) <= ('0' as int) + max_tone {
        lemma_char_code(syllable.last());
        assert forall|i: int| 0 <= i < n implies #[trigger] syllable[i] <= '\u{7f}' by {
            if i < n - 1 {
                assert('a' <= syllable[i] <= 'z');
            }
        }
        assert forall|i: int| 0 <= i < n - 1 implies 'a' <= #[trigger] syllable.drop_last()[i] <= 'z' by {
            assert(syllable.drop_last()[i] == syllable[i]);
        }
    }
}

proof fn lemma_syllables_pass(syllables: Seq<Seq<char>>, max_tone: u8)
    requires
        first_syllable_problem(syllables, max_tone) is None,
    ensures
        forall|k: int| 0 <= k < syllables.len() ==> syllable_problem(#[trigger] syllables[k], max_tone) is None,
    decreases syllables.len(),
{
    if syllables.len() > 0 {
        lemma_syllables_pass(syllables.drop_first(), max_tone);
        assert forall|k: int| 0 < k < syllables.len() implies syllable_problem(#[trigger] syllables[k], max_tone)
            is None by {
            assert(syllables.drop_first()[k - 1] == syllables[k]);
        }
    }
}

proof fn lemma_char_entries_pass(entries: Seq<(char, Seq<char>)>, max_tone: u8, kind: Seq<char>)
    requires
        char_override_problem(entries, max_tone, kind) is None,
    ensures
        forall|i: int| 0 <= i < entries.len() ==> syllable_problem(#[trigger] entries[i].1, max_tone) is None,
    decreases entries.len(),
{
    if entries.len() > 0 {
        lemma_char_entries_pass(entries.drop_first(), max_tone, kind);
        assert forall|i: int| 0 < i < entries.len() implies syllable_problem(#[trigger] entries[i].1, max_tone)
            is None by {
            assert(entries.drop_first()[i - 1] == entries[i]);
        }
    }
}

proof fn lemma_phrase_entries_pass(entries: Seq<(Seq<char>, Seq<Seq<char>>)>, max_tone: u8, kind: Seq<char>)
    requires
        phrase_override_problem(entries, max_tone, kind) is None,
    ensures
        forall|i: int|
            0 <= i < entries.len() ==> phrase_entry_problem(#[trigger] entries[i].0, entries[i].1, max_tone, kind)
                is None,
    decreases entries.len(),
{
    if entries.len() > 0 {
        lemma_phrase_entries_pass(entries.drop_first(), max_tone, kind);
        assert forall|i: int| 0 < i < entries.len() implies phrase_entry_problem(
            #[trigger] entries[i].0,
            entries[i].1,
            max_tone,
            kind,
        ) is None by {
            assert(entries.drop_first()[i - 1] == entries[i]);
        }
    }
}

/// A table that passes validation gives every phrase exactly as many
/// syllables as it has characters, has no empty phrase, and holds only
/// syllables of lowercase letters ending in a tone digit from `1` to
/// `max_tone`.
pub proof fn lemma_valid_table(
    char_override: Seq<(char, Seq<char>)>,
    phrase_override: Seq<(Seq<char>, Seq<Seq<char>>)>,
    max_tone: u8,
    kind: Seq<char>,
)
    requires
        override_problem(char_override, phrase_override, max_tone, kind) is None,
    ensures
        forall|i: int|
            0 <= i < phrase_override.len() ==> (#[trigger] phrase_override[i]).0.len()
                == phrase_override[i].1.len() && phrase_override[i].0.len() > 0,
        forall|i: int|
            0 <= i < char_override.len() ==> ((#[trigger] char_override[i]).1.len() >= 2 && '1'
                <= char_override[i].1.last() && (char_override[i].1.last() as int) <= ('0' as int)
                + max_tone),
        forall|i: int, k: int|
            0 <= i < phrase_override.len() && 0 <= k < phrase_override[i].1.len() ==> ((
            #[trigger] phrase_override[i].1[k]).len() >= 2 && '1' <= phrase_override[i].1[k].last()
                && (phrase_override[i].1[k].last() as int) <= ('0' as int) + max_tone),
{
    lemma_char_entries_pass(char_override, max_tone, kind);
    lemma_phrase_entries_pass(phrase_override, max_tone, kind);
    assert forall|i: int| 0 <= i < char_override.len() implies ((#[trigger] char_override[i]).1.len() >= 2
        && '1' <= char_override[i].1.last() && (char_override[i].1.last() as int) <= ('0' as int) + max_tone) by {
        lemma_valid_syllable_shape(char_override[i].1, max_tone);
    }
    assert forall|i: int| 0 <= i < phrase_override.len() implies (#[trigger] phrase_override[i]).0.len()
        == phrase_override[i].1.len() && phrase_override[i].0.len() > 0 by {
        assert(phrase_entry_problem(phrase_override[i].0, phrase_override[i].1, max_tone, kind) is None);
    }
    assert forall|i: int, k: int|
        0 <= i < phrase_override.len() && 0 <= k < phrase_override[i].1.len() implies ((
        #[trigger] phrase_override[i].1[k]).len() >= 2 && '1' <= phrase_override[i].1[k].last()
            && (phrase_override[i].1[k].last() as int) <= ('0' as int) + max_tone) by {
        assert(phrase_entry_problem(phrase_override[i].0, phrase_override[i].1, max_tone, kind) is None);
        lemma_syllables_pass(phrase_override[i].1, max_tone);
        lemma_valid_syllable_shape(phrase_override[i].1[k], max_tone);
    }
}

proof fn lemma_char_code(c: char)
    ensures
        (c as u32) as int == c as int,
        (c as int) <= 57 ==> c <= '\u{7f}',
{
}

} // verus!
