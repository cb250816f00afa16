//! Surname-aware name sorting (姓名模式).
//!
//! Many characters take a different reading as a surname than in everyday
//! text: 单 is `dān` ("single") but the surname is Shàn, 解 is `jiě` but
//! the surname is Xiè, 区 is `qū` but the surname is Ōu. [`NameCollator`]
//! sorts like the pinyin collator, except that the leading surname of an
//! entry takes its surname reading; a two-character compound surname (复姓)
//! such as 万俟 (Mòqí) is matched as a unit before a one-character one.
use vstd::prelude::*;
use vstd::string::{is_ascii, StringSliceAdditionalSpecFns};

use crate::collator::Collator;
use crate::pinyin::collator::PinyinCollator;
use crate::pinyin::key::{encode_primary_pinyin_unchecked, reading_key};
use crate::pinyin::lookup::packable;
use crate::table::find_entry;
use crate::text::{chars_of, push_char};

verus! {

/// Polyphonic surnames with their surname readings, one per character of
/// the surname; unused slots are empty.
pub const SURNAME_TABLE: [(&'static str, [&'static str; 2]); 8] = [
    ("万俟", ["mo4", "qi2"]),
    ("仇", ["qiu2", ""]),
    ("区", ["ou1", ""]),
    ("单", ["shan4", ""]),
    ("尉迟", ["yu4", "chi2"]),
    ("曾", ["zeng1", ""]),
    ("查", ["zha1", ""]),
    ("解", ["xie4", ""]),
];

/// The surname table keyed by the surnames' characters.
pub open spec fn surname_entries() -> Seq<(Seq<char>, [&'static str; 2])> {
    SURNAME_TABLE@.map_values(|e: (&'static str, [&'static str; 2])| (e.0@, e.1))
}

/// The surname readings of `surname`, if the table has it.
pub open spec fn surname_readings(surname: Seq<char>) -> Option<[&'static str; 2]> {
    find_entry(surname_entries(), surname)
}

/// The leading surname of `name`: a two-character surname of the table if
/// the name starts with one, else a one-character one; with the number of
/// characters it covers and its readings.
pub open spec fn surname_match(name: Seq<char>) -> Option<(nat, [&'static str; 2])> {
    if name.len() >= 2 && surname_readings(name.take(2)) is Some {
        Some((2, surname_readings(name.take(2))->0))
    } else if name.len() >= 1 && surname_readings(name.take(1)) is Some {
        Some((1, surname_readings(name.take(1))->0))
    } else {
        None
    }
}

/// The keys of the characters of `rest` under `inner`, if every one of them
/// has one.
pub open spec fn plain_keys(inner: PinyinCollator, rest: Seq<char>) -> Option<Seq<u128>> {
    if forall|i: int| 0 <= i < rest.len() ==> (#[trigger] inner.spec_data_for(rest[i])) is Some {
        Some(Seq::new(rest.len(), |i: int| inner.spec_data_for(rest[i])->0))
    } else {
        None
    }
}

/// The phrase keys of a name: its surname readings, then the ordinary key
/// of every later character. A name without a table surname, or with a
/// later character that has no key, has none (it sorts character by
/// character).
pub open spec fn name_keys(inner: PinyinCollator, name: Seq<char>) -> Option<Seq<u128>> {
    match surname_match(name) {
        Some((k, readings)) => match plain_keys(inner, name.skip(k as int)) {
            Some(rest) => Some(Seq::new(k, |j: int| reading_key(readings@[j]@)) + rest),
            None => None,
        },
        None => None,
    }
}

/// Every surname of the table has one or two characters, and each of its
/// readings packs into a key.
proof fn lemma_surname_table()
    ensures
        forall|i: int|
            0 <= i < SURNAME_TABLE@.len() ==> {
                let e = #[trigger] SURNAME_TABLE@[i];
                &&& 1 <= e.0@.len() <= 2
                &&& forall|j: int| 0 <= j < e.0@.len() ==> packable(#[trigger] e.1@[j])
            },
{
    broadcast use vstd::string::is_ascii_spec_bytes;

    reveal_strlit("万俟");
    reveal_strlit("仇");
    reveal_strlit("区");
    reveal_strlit("单");
    reveal_strlit("尉迟");
    reveal_strlit("曾");
    reveal_strlit("查");
    reveal_strlit("解");
    reveal_strlit("mo4");
    reveal_strlit("qi2");
    reveal_strlit("qiu2");
    reveal_strlit("ou1");
    reveal_strlit("shan4");
    reveal_strlit("yu4");
    reveal_strlit("chi2");
    reveal_strlit("zeng1");
    reveal_strlit("zha1");
    reveal_strlit("xie4");
    assert(is_ascii("mo4") && is_ascii("qi2") && is_ascii("qiu2") && is_ascii("ou1"));
    assert(is_ascii("shan4") && is_ascii("yu4") && is_ascii("chi2") && is_ascii("zeng1"));
    assert(is_ascii("zha1") && is_ascii("xie4"));
}

/// The surname readings of `surname`, if the table has it.
fn find_surname(surname: &String) -> (r: Option<[&'static str; 2]>)
    ensures
        r == surname_readings(surname@),
{
    let ghost table = surname_entries();
    let mut i: usize = 0;
    assert(table.skip(0) =~= table);
    while i < SURNAME_TABLE.len()
        invariant
            i <= SURNAME_TABLE@.len(),
            table == surname_entries(),
            find_entry(table, surname@) == find_entry(table.skip(i as int), surname@),
        decreases SURNAME_TABLE@.len() - i,
    {
        let entry = SURNAME_TABLE[i];
        assert(table.skip(i as int)[0] == (entry.0@, entry.1));
        if entry.0.to_owned() == *surname {
            return Some(entry.1);
        }
        assert(table.skip(i as int).drop_first() =~= table.skip(i + 1));
        i += 1;
    }
    None
}

/// The leading surname of `name`, longest first: the number of characters
/// it covers and its readings.
pub fn match_surname_prefix(name: &str) -> (r: Option<(usize, [&'static str; 2])>)
    ensures
        match r {
            Some((k, readings)) => surname_match(name@) == Some((k as nat, readings)),
            None => surname_match(name@) is None,
        },
{
    let chars = chars_of(name);
    if chars.len() >= 2 {
        let mut prefix2 = String::new();
        push_char(&mut prefix2, chars[0]);
        push_char(&mut prefix2, chars[1]);
        assert(prefix2@ =~= name@.take(2));
        if let Some(readings) = find_surname(&prefix2) {
            return Some((2, readings));
        }
    }
    if chars.len() >= 1 {
        let mut prefix1 = String::new();
        push_char(&mut prefix1, chars[0]);
        assert(prefix1@ =~= name@.take(1));
        if let Some(readings) = find_surname(&prefix1) {
            return Some((1, readings));
        }
    }
    None
}

/// A surname found by [`surname_match`] covers exactly as many characters
/// as its table entry, so its readings for those characters pack.
proof fn lemma_match_packable(name: Seq<char>)
    ensures
        surname_match(name) matches Some((k, readings)) ==> (1 <= k <= 2 && forall|j: int|
            0 <= j < k ==> packable(#[trigger] readings@[j])),
{
    lemma_surname_table();
    if let Some((k, readings)) = surname_match(name) {
        let prefix = name.take(k as int);
        crate::table::lemma_find_entry_member(surname_entries(), prefix);
        let i = choose|i: int|
            0 <= i < surname_entries().len() && #[trigger] surname_entries()[i] == (prefix, readings);
        assert(SURNAME_TABLE@[i].0@ == prefix);
        assert(SURNAME_TABLE@[i].1 == readings);
    }
}

/// Sorts Hanzi names by Mandarin pinyin, reading the leading surname by
/// its surname reading.
#[derive(Debug, Clone)]
pub struct NameCollator {
    inner: PinyinCollator,
}

impl NameCollator {
    /// The pinyin collator (without overrides) that reads everything but
    /// the surname.
    pub closed spec fn plain(&self) -> PinyinCollator {
        self.inner
    }

    /// A surname-aware name collator over plain pinyin.
    pub fn new() -> (c: Self)
        ensures
            c.plain().overrides() is None,
    {
        NameCollator { inner: PinyinCollator::new() }
    }
}

impl Default for NameCollator {
    /// A surname-aware name collator over plain pinyin.
    fn default() -> (c: Self)
        ensures
            c.plain().overrides() is None,
    {
        NameCollator::new()
    }
}

impl Collator for NameCollator {
    type Data = u128;

    open spec fn spec_data_for(&self, ch: char) -> Option<u128> {
        self.plain().spec_data_for(ch)
    }

    open spec fn spec_phrase_data(&self, phrase: Seq<char>) -> Option<Seq<u128>> {
        name_keys(self.plain(), phrase)
    }

    fn data_for(&self, ch: char) -> (r: Option<u128>) {
        self.inner.data_for(ch)
    }

    fn phrase_data(&self, name: &str) -> (r: Option<Vec<u128>>) {
        proof {
            lemma_match_packable(name@);
        }
        let (k, readings) = match match_surname_prefix(name) {
            Some(m) => m,
            None => return None,
        };
        let chars = chars_of(name);
        let ghost rest = name@.skip(k as int);
        let ghost head = Seq::new(k as nat, |j: int| reading_key(readings@[j]@));
        let mut out: Vec<u128> = Vec::new();
        let mut j: usize = 0;
        while j < k
            invariant
                j <= k,
                1 <= k <= 2,
                forall|m: int| 0 <= m < k ==> packable(#[trigger] readings@[m]),
                head == Seq::new(k as nat, |m: int| reading_key(readings@[m]@)),
                out@ == head.take(j as int),
            decreases k - j,
        {
            assert(packable(readings@[j as int]));
            let key = encode_primary_pinyin_unchecked(readings[j]);
            out.push(key);
            j += 1;
            assert(out@ =~= head.take(j as int));
        }
        assert(head.take(k as int) =~= head);
        let mut i: usize = k;
        while i < chars.len()
            invariant
                k <= i <= chars.len(),
                chars@ == name@,
                surname_match(name@) == Some((k as nat, readings)),
                rest == name@.skip(k as int),
                out@.len() == i,
                out@.take(k as int) == head,
                forall|m: int| 0 <= m < i - k ==> (#[trigger] self.plain().spec_data_for(rest[m])) is Some,
                forall|m: int|
                    0 <= m < i - k ==> out@[k + m] == (#[trigger] self.plain().spec_data_for(rest[m]))->0,
            decreases chars.len() - i,
        {
            assert(rest[i - k] == chars@[i as int]);
            match self.inner.data_for(chars[i]) {
                Some(key) => {
                    out.push(key);
                },
                None => {
                    assert(!(self.plain().spec_data_for(rest[i - k]) is Some));
                    return None;
                },
            }
            i += 1;
        }
        assert(out@ =~= head + Seq::new(rest.len(), |m: int| self.plain().spec_data_for(rest[m])->0));
        Some(out)
    }
}

} // verus!
