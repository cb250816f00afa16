use hanzi_sort::jyutping::key::{encode_primary_jyutping, encode_primary_jyutping_unchecked};
use hanzi_sort::jyutping::lookup::{all_jyutping_for_char, primary_jyutping_for_char};
use hanzi_sort::{
    sort_strings_with, AnyCollator, Collator, JyutpingCollator, JyutpingOverride, PinyinSortError,
};

#[test]
fn encode_primary_jyutping_preserves_lexicographic_order() {
    assert!(encode_primary_jyutping("haa1").unwrap() < encode_primary_jyutping("haai1").unwrap());
    assert!(encode_primary_jyutping("si1").unwrap() < encode_primary_jyutping("si6").unwrap());
    assert!(encode_primary_jyutping("hon3").unwrap() < encode_primary_jyutping("zung1").unwrap());
}

#[test]
fn encode_primary_jyutping_rejects_invalid_tone() {
    let err = encode_primary_jyutping("si7").expect_err("tone 7 should fail");
    assert!(err.contains("1-6"));
}

#[test]
fn encode_primary_jyutping_rejects_toneless_input() {
    let err = encode_primary_jyutping("si").expect_err("missing tone should fail");
    assert!(err.contains("tone digit"));
}

#[test]
fn encode_primary_jyutping_rejects_non_ascii() {
    let err = encode_primary_jyutping("siː1").expect_err("non-ASCII should fail");
    assert!(err.contains("ASCII"));
}

#[test]
fn encode_primary_jyutping_unchecked_matches_checked_for_valid_input() {
    for syllable in ["hoeng1", "hon3", "si6", "zung1"] {
        let checked = encode_primary_jyutping(syllable).expect("valid input");
        let unchecked = encode_primary_jyutping_unchecked(syllable);
        assert_eq!(checked, unchecked, "mismatch for {syllable}");
    }
}

#[test]
fn encode_primary_jyutping_rejects_empty_and_long_syllables() {
    assert_eq!(encode_primary_jyutping(""), Err("jyutping syllable is empty"));
    assert_eq!(
        encode_primary_jyutping("aaaaaaaaaaaaaaaaa1"),
        Err("jyutping syllable exceeds 16 bytes")
    );
}

#[test]
fn encode_primary_jyutping_packs_bytes_big_endian_and_zero_pads() {
    assert_eq!(encode_primary_jyutping("a1"), Ok(0x6131u128 << 112));
}

#[test]
fn data_for_returns_known_jyutping() {
    let collator = JyutpingCollator::new();
    assert_eq!(
        collator.data_for('中'),
        Some(encode_primary_jyutping_unchecked("zung1"))
    );
    assert_eq!(
        collator.data_for('汉'),
        Some(encode_primary_jyutping_unchecked("hon3"))
    );
    assert_eq!(
        collator.data_for('香'),
        Some(encode_primary_jyutping_unchecked("hoeng1"))
    );
}

#[test]
fn sort_orders_by_jyutping_then_tone() {
    let collator = JyutpingCollator::new();
    let sorted = sort_strings_with(
        vec![
            "是".to_string(),
            "試".to_string(),
            "時".to_string(),
            "詩".to_string(),
            "史".to_string(),
            "市".to_string(),
        ],
        &collator,
    );
    assert_eq!(sorted, vec!["詩", "史", "試", "時", "市", "是"]);
}

#[test]
fn jyutping_of_exposes_all_readings() {
    let collator = JyutpingCollator::new();
    let records = collator.jyutping_of("中");
    assert_eq!(records.len(), 1);
    assert_eq!(records[0].primary_jyutping(), Some("zung1"));
    assert_eq!(records[0].jyutping, vec!["zung1"]);
}

#[test]
fn lookup_gives_every_reading_most_common_first() {
    assert_eq!(all_jyutping_for_char('重'), vec!["cung4", "zung6"]);
    assert_eq!(primary_jyutping_for_char('重'), Some("cung4"));
    assert_eq!(all_jyutping_for_char('a'), Vec::<String>::new());
    assert_eq!(primary_jyutping_for_char('a'), None);
}

#[test]
fn jyutping_override_changes_the_key() {
    let collator = JyutpingCollator::with_override(JyutpingOverride {
        char_override: vec![('重', "zung6".to_string())],
        phrase_override: vec![("中史".to_string(), vec!["zung3".to_string(), "si2".to_string()])],
    })
    .expect("valid override should construct");
    assert_eq!(collator.data_for('重'), Some(encode_primary_jyutping_unchecked("zung6")));
    assert_eq!(
        collator.phrase_data("中史"),
        Some(vec![
            encode_primary_jyutping_unchecked("zung3"),
            encode_primary_jyutping_unchecked("si2"),
        ])
    );
    assert_eq!(collator.phrase_data("中"), None);
}

#[test]
fn jyutping_override_rejects_unencodable_syllable() {
    let result = AnyCollator::jyutping_with_override(JyutpingOverride {
        char_override: vec![('中', "zǔng1".to_string())],
        phrase_override: vec![],
    });
    match result {
        Err(PinyinSortError::InvalidOverride(message)) => {
            assert_eq!(
                message,
                "override syllable 'zǔng1' cannot be encoded: syllable must be ASCII"
            );
        }
        other => panic!("unexpected: {other:?}"),
    }
}

#[test]
fn jyutping_of_honors_the_override_table() {
    let collator = JyutpingCollator::with_override(JyutpingOverride {
        char_override: vec![('重', "zung6".to_string())],
        phrase_override: vec![("中史".to_string(), vec!["zung3".to_string(), "si2".to_string()])],
    })
    .expect("valid override should construct");
    let records = collator.jyutping_of("重");
    assert_eq!(records[0].jyutping, vec!["zung6"]);
    let phrase = collator.jyutping_of("中史");
    assert_eq!(phrase[0].primary_jyutping(), Some("zung3"));
    assert_eq!(phrase[1].primary_jyutping(), Some("si2"));
    assert_eq!(collator.jyutping_of("中")[0].jyutping, vec!["zung1"]);
}

#[test]
fn checked_keys_order_as_the_syllables_do() {
    let pairs = [("haa1", "haai1"), ("si1", "si6"), ("hon3", "zung1")];
    for (a, b) in pairs {
        let ka = encode_primary_jyutping(a).expect("valid");
        let kb = encode_primary_jyutping(b).expect("valid");
        assert_eq!(ka.cmp(&kb), a.as_bytes().cmp(b.as_bytes()));
    }
}
