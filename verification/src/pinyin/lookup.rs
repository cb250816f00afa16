//! The bundled pinyin readings.
use vstd::prelude::*;
use vstd::string::{is_ascii, StringSliceAdditionalSpecFns};

use crate::table::{find_entry, lemma_find_entry_member, lookup};
use crate::text::views;

verus! {

/// Most readings a character of the table has.
pub const MAX_READINGS: usize = 5;

/// Pinyin readings (tone digit last, `v` for `ü`), most common first; unused
/// slots are empty.
pub const PINYIN_TABLE: [(char, [&'static str; MAX_READINGS]); 48] = [
    ('〇', ["ling2", "", "", "", ""]),
    ('一', ["yi1", "", "", "", ""]),
    ('丁', ["ding1", "zheng1", "", "", ""]),
    ('七', ["qi1", "", "", "", ""]),
    ('三', ["san1", "", "", "", ""]),
    ('丙', ["bing3", "", "", "", ""]),
    ('中', ["zhong1", "zhong4", "", "", ""]),
    ('丰', ["feng1", "", "", "", ""]),
    ('乐', ["le4", "yue4", "yao4", "lao4", "luo4"]),
    ('乙', ["yi3", "", "", "", ""]),
    ('云', ["yun2", "", "", "", ""]),
    ('八', ["ba1", "", "", "", ""]),
    ('十', ["shi2", "", "", "", ""]),
    ('口', ["kou3", "", "", "", ""]),
    ('吗', ["ma5", "ma3", "ma2", "", ""]),
    ('四', ["si4", "", "", "", ""]),
    ('大', ["da4", "dai4", "tai4", "", ""]),
    ('天', ["tian1", "", "", "", ""]),
    ('字', ["zi4", "", "", "", ""]),
    ('庆', ["qing4", "", "", "", ""]),
    ('张', ["zhang1", "", "", "", ""]),
    ('水', ["shui3", "", "", "", ""]),
    ('汉', ["han4", "", "", "", ""]),
    ('测', ["ce4", "", "", "", ""]),
    ('照', ["zhao4", "", "", "", ""]),
    ('甲', ["jia3", "", "", "", ""]),
    ('相', ["xiang1", "xiang4", "", "", ""]),
    ('行', ["xing2", "hang2", "hang4", "heng2", ""]),
    ('要', ["yao4", "yao1", "", "", ""]),
    ('试', ["shi4", "", "", "", ""]),
    ('赵', ["zhao4", "", "", "", ""]),
    ('重', ["zhong4", "chong2", "", "", ""]),
    ('银', ["yin2", "", "", "", ""]),
    ('马', ["ma3", "", "", "", ""]),
    ('骂', ["ma4", "", "", "", ""]),
    ('麻', ["ma2", "", "", "", ""]),
    ('万', ["wan4", "mo4", "", "", ""]),
    ('仇', ["chou2", "qiu2", "", "", ""]),
    ('俟', ["si4", "qi2", "", "", ""]),
    ('区', ["qu1", "ou1", "", "", ""]),
    ('单', ["dan1", "shan4", "chan2", "", ""]),
    ('尉', ["wei4", "yu4", "", "", ""]),
    ('曾', ["ceng2", "zeng1", "", "", ""]),
    ('查', ["cha2", "zha1", "", "", ""]),
    ('牛', ["niu2", "", "", "", ""]),
    ('解', ["jie3", "jie4", "xie4", "", ""]),
    ('迟', ["chi2", "", "", "", ""]),
    ('陈', ["chen2", "", "", "", ""]),
];

/// The non-empty readings of a table row, in order.
pub open spec fn row_readings(row: Seq<&'static str>) -> Seq<Seq<char>>
    decreases row.len(),
{
    if row.len() == 0 {
        Seq::empty()
    } else if row.last()@.len() == 0 {
        row_readings(row.drop_last())
    } else {
        row_readings(row.drop_last()).push(row.last()@)
    }
}

/// Every reading of `character` in the bundled table, most common first;
/// empty when the table does not know the character.
pub open spec fn table_readings(character: char) -> Seq<Seq<char>> {
    match find_entry(PINYIN_TABLE@, character) {
        Some(row) => row_readings(row@),
        None => Seq::empty(),
    }
}

/// The primary reading of `character`, if the table knows it.
pub open spec fn table_primary(character: char) -> Option<&'static str> {
    match find_entry(PINYIN_TABLE@, character) {
        Some(row) => Some(row@[0]),
        None => None,
    }
}

/// A reading that the fast comparison path can pack: non-empty, ASCII and
/// at most 16 bytes.
pub open spec fn packable(reading: &str) -> bool {
    &&& reading@.len() > 0
    &&& is_ascii(reading)
    &&& reading.spec_bytes().len() <= 16
}

/// Every primary reading in the table is packable.
pub proof fn lemma_primaries_packable()
    ensures
        forall|i: int| 0 <= i < PINYIN_TABLE@.len() ==> packable(#[trigger] PINYIN_TABLE@[i].1@[0]),
{
    broadcast use vstd::string::is_ascii_spec_bytes;

    reveal_strlit("ling2");
    reveal_strlit("yi1");
    reveal_strlit("ding1");
    reveal_strlit("qi1");
    reveal_strlit("san1");
    reveal_strlit("bing3");
    reveal_strlit("zhong1");
    reveal_strlit("feng1");
    reveal_strlit("le4");
    reveal_strlit("yi3");
    reveal_strlit("yun2");
    reveal_strlit("ba1");
    reveal_strlit("shi2");
    reveal_strlit("kou3");
    reveal_strlit("ma5");
    reveal_strlit("si4");
    reveal_strlit("da4");
    reveal_strlit("tian1");
    reveal_strlit("zi4");
    reveal_strlit("qing4");
    reveal_strlit("zhang1");
    reveal_strlit("shui3");
    reveal_strlit("han4");
    reveal_strlit("ce4");
    reveal_strlit("zhao4");
    reveal_strlit("jia3");
    reveal_strlit("xiang1");
    reveal_strlit("xing2");
    reveal_strlit("yao4");
    reveal_strlit("shi4");
    reveal_strlit("zhong4");
    reveal_strlit("yin2");
    reveal_strlit("ma3");
    reveal_strlit("ma4");
    reveal_strlit("ma2");
    reveal_strlit("wan4");
    reveal_strlit("chou2");
    reveal_strlit("qu1");
    reveal_strlit("dan1");
    reveal_strlit("wei4");
    reveal_strlit("ceng2");
    reveal_strlit("cha2");
    reveal_strlit("niu2");
    reveal_strlit("jie3");
    reveal_strlit("chi2");
    reveal_strlit("chen2");
    assert forall|i: int| 0 <= i < PINYIN_TABLE@.len() implies packable(
        #[trigger] PINYIN_TABLE@[i].1@[0],
    ) by {
        if i == 0 {
            assert(PINYIN_TABLE@[0].1@[0] == "ling2");
            assert(is_ascii("ling2"));
        } else if i == 1 {
            assert(PINYIN_TABLE@[1].1@[0] == "yi1");
            assert(is_ascii("yi1"));
        } else if i == 2 {
            assert(PINYIN_TABLE@[2].1@[0] == "ding1");
            assert(is_ascii("ding1"));
        } else if i == 3 {
            assert(PINYIN_TABLE@[3].1@[0] == "qi1");
            assert(is_ascii("qi1"));
        } else if i == 4 {
            assert(PINYIN_TABLE@[4].1@[0] == "san1");
            assert(is_ascii("san1"));
        } else if i == 5 {
            assert(PINYIN_TABLE@[5].1@[0] == "bing3");
            assert(is_ascii("bing3"));
        } else if i == 6 {
            assert(PINYIN_TABLE@[6].1@[0] == "zhong1");
            assert(is_ascii("zhong1"));
        } else if i == 7 {
            assert(PINYIN_TABLE@[7].1@[0] == "feng1");
            assert(is_ascii("feng1"));
        } else if i == 8 {
            assert(PINYIN_TABLE@[8].1@[0] == "le4");
            assert(is_ascii("le4"));
        } else if i == 9 {
            assert(PINYIN_TABLE@[9].1@[0] == "yi3");
            assert(is_ascii("yi3"));
        } else if i == 10 {
            assert(PINYIN_TABLE@[10].1@[0] == "yun2");
            assert(is_ascii("yun2"));
        } else if i == 11 {
            assert(PINYIN_TABLE@[11].1@[0] == "ba1");
            assert(is_ascii("ba1"));
        } else if i == 12 {
            assert(PINYIN_TABLE@[12].1@[0] == "shi2");
            assert(is_ascii("shi2"));
        } else if i == 13 {
            assert(PINYIN_TABLE@[13].1@[0] == "kou3");
            assert(is_ascii("kou3"));
        } else if i == 14 {
            assert(PINYIN_TABLE@[14].1@[0] == "ma5");
            assert(is_ascii("ma5"));
        } else if i == 15 {
            assert(PINYIN_TABLE@[15].1@[0] == "si4");
            assert(is_ascii("si4"));
        } else if i == 16 {
            assert(PINYIN_TABLE@[16].1@[0] == "da4");
            assert(is_ascii("da4"));
        } else if i == 17 {
            assert(PINYIN_TABLE@[17].1@[0] == "tian1");
            assert(is_ascii("tian1"));
        } else if i == 18 {
            assert(PINYIN_TABLE@[18].1@[0] == "zi4");
            assert(is_ascii("zi4"));
        } else if i == 19 {
            assert(PINYIN_TABLE@[19].1@[0] == "qing4");
            assert(is_ascii("qing4"));
        } else if i == 20 {
            assert(PINYIN_TABLE@[20].1@[0] == "zhang1");
            assert(is_ascii("zhang1"));
        } else if i == 21 {
            assert(PINYIN_TABLE@[21].1@[0] == "shui3");
            assert(is_ascii("shui3"));
        } else if i == 22 {
            assert(PINYIN_TABLE@[22].1@[0] == "han4");
            assert(is_ascii("han4"));
        } else if i == 23 {
            assert(PINYIN_TABLE@[23].1@[0] == "ce4");
            assert(is_ascii("ce4"));
        } else if i == 24 {
            assert(PINYIN_TABLE@[24].1@[0] == "zhao4");
            assert(is_ascii("zhao4"));
        } else if i == 25 {
            assert(PINYIN_TABLE@[25].1@[0] == "jia3");
            assert(is_ascii("jia3"));
        } else if i == 26 {
            assert(PINYIN_TABLE@[26].1@[0] == "xiang1");
            assert(is_ascii("xiang1"));
        } else if i == 27 {
            assert(PINYIN_TABLE@[27].1@[0] == "xing2");
            assert(is_ascii("xing2"));
        } else if i == 28 {
            assert(PINYIN_TABLE@[28].1@[0] == "yao4");
            assert(is_ascii("yao4"));
        } else if i == 29 {
            assert(PINYIN_TABLE@[29].1@[0] == "shi4");
            assert(is_ascii("shi4"));
        } else if i == 30 {
            assert(PINYIN_TABLE@[30].1@[0] == "zhao4");
            assert(is_ascii("zhao4"));
        } else if i == 31 {
            assert(PINYIN_TABLE@[31].1@[0] == "zhong4");
            assert(is_ascii("zhong4"));
        } else if i == 32 {
            assert(PINYIN_TABLE@[32].1@[0] == "yin2");
            assert(is_ascii("yin2"));
        } else if i == 33 {
            assert(PINYIN_TABLE@[33].1@[0] == "ma3");
            assert(is_ascii("ma3"));
        } else if i == 34 {
            assert(PINYIN_TABLE@[34].1@[0] == "ma4");
            assert(is_ascii("ma4"));
        } else if i == 35 {
            assert(PINYIN_TABLE@[35].1@[0] == "ma2");
            assert(is_ascii("ma2"));
        } else if i == 36 {
            assert(PINYIN_TABLE@[36].1@[0] == "wan4");
            assert(is_ascii("wan4"));
        } else if i == 37 {
            assert(PINYIN_TABLE@[37].1@[0] == "chou2");
            assert(is_ascii("chou2"));
        } else if i == 38 {
            assert(PINYIN_TABLE@[38].1@[0] == "si4");
            assert(is_ascii("si4"));
        } else if i == 39 {
            assert(PINYIN_TABLE@[39].1@[0] == "qu1");
            assert(is_ascii("qu1"));
        } else if i == 40 {
            assert(PINYIN_TABLE@[40].1@[0] == "dan1");
            assert(is_ascii("dan1"));
        } else if i == 41 {
            assert(PINYIN_TABLE@[41].1@[0] == "wei4");
            assert(is_ascii("wei4"));
        } else if i == 42 {
            assert(PINYIN_TABLE@[42].1@[0] == "ceng2");
            assert(is_ascii("ceng2"));
        } else if i == 43 {
            assert(PINYIN_TABLE@[43].1@[0] == "cha2");
            assert(is_ascii("cha2"));
        } else if i == 44 {
            assert(PINYIN_TABLE@[44].1@[0] == "niu2");
            assert(is_ascii("niu2"));
        } else if i == 45 {
            assert(PINYIN_TABLE@[45].1@[0] == "jie3");
            assert(is_ascii("jie3"));
        } else if i == 46 {
            assert(PINYIN_TABLE@[46].1@[0] == "chi2");
            assert(is_ascii("chi2"));
        } else if i == 47 {
            assert(PINYIN_TABLE@[47].1@[0] == "chen2");
            assert(is_ascii("chen2"));
        }
    }
}

/// A row whose first reading is non-empty lists that reading first.
pub proof fn lemma_row_readings_first(row: Seq<&'static str>)
    requires
        row.len() > 0,
        row[0]@.len() > 0,
    ensures
        row_readings(row).len() > 0,
        row_readings(row)[0] == row[0]@,
    decreases row.len(),
{
    let rest = row_readings(row.drop_last());
    if row.len() > 1 {
        assert(row.drop_last()[0] == row[0]);
        lemma_row_readings_first(row.drop_last());
        if row.last()@.len() != 0 {
            assert(row_readings(row) == rest.push(row.last()@));
            assert(rest.push(row.last()@)[0] == rest[0]);
        }
    } else {
        assert(row.last() == row[0]);
        assert(row.drop_last().len() == 0);
        assert(rest == Seq::<Seq<char>>::empty());
        assert(row_readings(row) == rest.push(row.last()@));
        assert(rest.push(row.last()@)[0] == row.last()@);
    }
}

/// The primary reading of a character is the first of all its readings,
/// and a character without a primary reading has no readings.
pub proof fn lemma_primary_is_first_reading(character: char)
    ensures
        table_primary(character) matches Some(s) ==> table_readings(character).len() > 0
            && table_readings(character)[0] == s@,
        table_primary(character) is None ==> table_readings(character).len() == 0,
{
    lemma_primaries_packable();
    lemma_find_entry_member(PINYIN_TABLE@, character);
    if let Some(row) = find_entry(PINYIN_TABLE@, character) {
        let i = choose|i: int| 0 <= i < PINYIN_TABLE@.len() && #[trigger] PINYIN_TABLE@[i] == (character, row);
        assert(packable(PINYIN_TABLE@[i].1@[0]));
        lemma_row_readings_first(row@);
    }
}

/// The primary reading of `character`, if the table knows it.
pub fn primary_pinyin_for_char(character: char) -> (r: Option<&'static str>)
    ensures
        r == table_primary(character),
        r matches Some(s) ==> packable(s),
{
    proof {
        lemma_primaries_packable();
        lemma_find_entry_member(PINYIN_TABLE@, character);
    }
    match lookup(&PINYIN_TABLE, character) {
        Some(row) => {
            proof {
                let i = choose|i: int| 0 <= i < PINYIN_TABLE@.len() && #[trigger] PINYIN_TABLE@[i] == (character, row);
                assert(packable(PINYIN_TABLE@[i].1@[0]));
            }
            Some(row[0])
        },
        None => None,
    }
}

/// Every reading of `character`, most common first.
pub fn all_pinyin_for_char(character: char) -> (r: Vec<String>)
    ensures
        views(r@) == table_readings(character),
{
    match lookup(&PINYIN_TABLE, character) {
        Some(row) => {
            let mut out: Vec<String> = Vec::new();
            let mut i: usize = 0;
            while i < MAX_READINGS
                invariant
                    i <= MAX_READINGS,
                    row@.len() == MAX_READINGS,
                    views(out@) == row_readings(row@.take(i as int)),
                decreases MAX_READINGS - i,
            {
                let ghost before = out@;
                if !row[i].is_empty() {
                    out.push(row[i].to_owned());
                    assert(views(out@) =~= views(before).push(row@[i as int]@));
                }
                assert(row@.take(i + 1).drop_last() =~= row@.take(i as int));
                i += 1;
            }
            assert(row@.take(MAX_READINGS as int) =~= row@);
            out
        },
        None => Vec::new(),
    }
}

} // verus!
