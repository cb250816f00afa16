//! The bundled Jyutping readings.
use vstd::prelude::*;

use crate::jyutping::key::jyutping_problem;
use crate::pinyin::lookup::row_readings;
use crate::table::{find_entry, lemma_find_entry_member, lookup};
use crate::text::views;

verus! {

/// Most readings a character of the table has.
pub const MAX_JYUTPING_READINGS: usize = 2;

/// Cantonese readings (Unihan `kCantonese`, tone digit last), most common
/// first; unused slots are empty.
pub const JYUTPING_TABLE: [(char, [&'static str; MAX_JYUTPING_READINGS]); 12] = [
    ('一', ["jat1", ""]),
    ('中', ["zung1", ""]),
    ('十', ["sap6", ""]),
    ('史', ["si2", ""]),
    ('市', ["si5", ""]),
    ('是', ["si6", ""]),
    ('時', ["si4", ""]),
    ('汉', ["hon3", ""]),
    ('試', ["si3", ""]),
    ('詩', ["si1", ""]),
    ('重', ["cung4", "zung6"]),
    ('香', ["hoeng1", ""]),
];

/// Every reading of `character` in the bundled table, most common first.
pub open spec fn table_jyutping(character: char) -> Seq<Seq<char>> {
    match find_entry(JYUTPING_TABLE@, character) {
        Some(row) => row_readings(row@),
        None => Seq::empty(),
    }
}

/// The primary reading of `character`, if the table knows it.
pub open spec fn table_primary_jyutping(character: char) -> Option<&'static str> {
    match find_entry(JYUTPING_TABLE@, character) {
        Some(row) => Some(row@[0]),
        None => None,
    }
}

/// Every primary reading of the table is a well-formed syllable.
pub proof fn lemma_primaries_well_formed()
    ensures
        forall|i: int|
            0 <= i < JYUTPING_TABLE@.len() ==> jyutping_problem(#[trigger] JYUTPING_TABLE@[i].1@[0])
                is None,
{
    broadcast use vstd::string::is_ascii_spec_bytes;

    reveal_strlit("jat1");
    reveal_strlit("zung1");
    reveal_strlit("sap6");
    reveal_strlit("si2");
    reveal_strlit("si5");
    reveal_strlit("si6");
    reveal_strlit("si4");
    reveal_strlit("hon3");
    reveal_strlit("si3");
    reveal_strlit("si1");
    reveal_strlit("cung4");
    reveal_strlit("hoeng1");
    assert forall|i: int| 0 <= i < JYUTPING_TABLE@.len() implies jyutping_problem(
        #[trigger] JYUTPING_TABLE@[i].1@[0],
    ) is None by {
        if i == 0 {
            assert(JYUTPING_TABLE@[0].1@[0] == "jat1");
            assert(vstd::string::is_ascii("jat1"));
        } else if i == 1 {
            assert(JYUTPING_TABLE@[1].1@[0] == "zung1");
            assert(vstd::string::is_ascii("zung1"));
        } else if i == 2 {
            assert(JYUTPING_TABLE@[2].1@[0] == "sap6");
            assert(vstd::string::is_ascii("sap6"));
        } else if i == 3 {
            assert(JYUTPING_TABLE@[3].1@[0] == "si2");
            assert(vstd::string::is_ascii("si2"));
        } else if i == 4 {
            assert(JYUTPING_TABLE@[4].1@[0] == "si5");
            assert(vstd::string::is_ascii("si5"));
        } else if i == 5 {
            assert(JYUTPING_TABLE@[5].1@[0] == "si6");
            assert(vstd::string::is_ascii("si6"));
        } else if i == 6 {
            assert(JYUTPING_TABLE@[6].1@[0] == "si4");
            assert(vstd::string::is_ascii("si4"));
        } else if i == 7 {
            assert(JYUTPING_TABLE@[7].1@[0] == "hon3");
            assert(vstd::string::is_ascii("hon3"));
        } else if i == 8 {
            assert(JYUTPING_TABLE@[8].1@[0] == "si3");
            assert(vstd::string::is_ascii("si3"));
        } else if i == 9 {
            assert(JYUTPING_TABLE@[9].1@[0] == "si1");
            assert(vstd::string::is_ascii("si1"));
        } else if i == 10 {
            assert(JYUTPING_TABLE@[10].1@[0] == "cung4");
            assert(vstd::string::is_ascii("cung4"));
        } else if i == 11 {
            assert(JYUTPING_TABLE@[11].1@[0] == "hoeng1");
            assert(vstd::string::is_ascii("hoeng1"));
        }
    }
}

/// The primary reading of a character is the first of all its readings,
/// and a character without a primary reading has no readings.
pub proof fn lemma_primary_is_first_reading(character: char)
    ensures
        table_primary_jyutping(character) matches Some(s) ==> table_jyutping(character).len() > 0
            && table_jyutping(character)[0] == s@,
        table_primary_jyutping(character) is None ==> table_jyutping(character).len() == 0,
{
    lemma_primaries_well_formed();
    lemma_find_entry_member(JYUTPING_TABLE@, character);
    if let Some(row) = find_entry(JYUTPING_TABLE@, character) {
        let i = choose|i: int|
            0 <= i < JYUTPING_TABLE@.len() && #[trigger] JYUTPING_TABLE@[i] == (character, row);
        assert(jyutping_problem(JYUTPING_TABLE@[i].1@[0]) is None);
        crate::pinyin::lookup::lemma_row_readings_first(row@);
    }
}

/// The primary reading of `character`, if the table knows it.
pub fn primary_jyutping_for_char(character: char) -> (r: Option<&'static str>)
    ensures
        r == table_primary_jyutping(character),
        r matches Some(s) ==> jyutping_problem(s) is None,
{
    proof {
        lemma_primaries_well_formed();
        lemma_find_entry_member(JYUTPING_TABLE@, character);
    }
    match lookup(&JYUTPING_TABLE, character) {
        Some(row) => {
            proof {
                let i = choose|i: int|
                    0 <= i < JYUTPING_TABLE@.len() && #[trigger] JYUTPING_TABLE@[i] == (character, row);
                assert(jyutping_problem(JYUTPING_TABLE@[i].1@[0]) is None);
            }
            Some(row[0])
        },
        None => None,
    }
}

/// Every reading of `character`, most common first.
pub fn all_jyutping_for_char(character: char) -> (r: Vec<String>)
    ensures
        views(r@) == table_jyutping(character),
{
    match lookup(&JYUTPING_TABLE, character) {
        Some(row) => {
            let mut out: Vec<String> = Vec::new();
            let mut i: usize = 0;
            while i < MAX_JYUTPING_READINGS
                invariant
                    i <= MAX_JYUTPING_READINGS,
                    row@.len() == MAX_JYUTPING_READINGS,
                    views(out@) == row_readings(row@.take(i as int)),
                decreases MAX_JYUTPING_READINGS - i,
            {
                let ghost before = out@;
                if !row[i].is_empty() {
                    out.push(row[i].to_owned());
                    assert(views(out@) =~= views(before).push(row@[i as int]@));
                }
                assert(row@.take(i + 1).drop_last() =~= row@.take(i as int));
                i += 1;
            }
            assert(row@.take(MAX_JYUTPING_READINGS as int) =~= row@);
            out
        },
        None => Vec::new(),
    }
}

} // verus!
