use hanzi_sort::pinyin::key::{encode_primary_pinyin, encode_primary_pinyin_unchecked};
use hanzi_sort::pinyin::lookup::{all_pinyin_for_char, primary_pinyin_for_char};
use hanzi_sort::{
    sort_strings_with, AnyCollator, Collator, PinYinRecord, PinyinCollator, PinyinOverride,
    PinyinSortError,
};

#[test]
fn encode_primary_pinyin_preserves_lexicographic_order() {
    assert!(encode_primary_pinyin("a") < encode_primary_pinyin("aa"));
    assert!(encode_primary_pinyin("chong2") < encode_primary_pinyin("qing4"));
    assert!(encode_primary_pinyin("zhong4") < encode_primary_pinyin("zhong5"));
}

#[test]
fn test_encode_primary_pinyin_preserves_lexicographic_order() {
    assert!(encode_primary_pinyin("a") < encode_primary_pinyin("aa"));
    assert!(encode_primary_pinyin("chong2") < encode_primary_pinyin("qing4"));
    assert!(encode_primary_pinyin("zhong4") < encode_primary_pinyin("zhong5"));
}

#[test]
fn encode_primary_pinyin_packs_bytes_big_endian_and_zero_pads() {
    assert_eq!(encode_primary_pinyin_unchecked(""), 0);
    assert_eq!(encode_primary_pinyin_unchecked("a"), 0x61u128 << 120);
    assert_eq!(encode_primary_pinyin_unchecked("abcdefghijklmnop"), 0x6162636465666768696a6b6c6d6e6f70u128);
}

#[test]
fn encode_primary_pinyin_reports_why_a_syllable_does_not_fit() {
    assert_eq!(encode_primary_pinyin("ma3"), Ok(encode_primary_pinyin_unchecked("ma3")));
    assert_eq!(encode_primary_pinyin("nü3"), Err("syllable must be ASCII"));
    assert_eq!(encode_primary_pinyin("aaaaaaaaaaaaaaaaa"), Err("syllable exceeds 16 bytes"));
}

#[test]
fn collator_pinyin_of_known_characters() {
    let collator = PinyinCollator::default();
    let expected = vec![
        PinYinRecord {
            pinyin: vec!["han4".to_string()],
            character: '汉',
        },
        PinYinRecord {
            pinyin: vec!["zi4".to_string()],
            character: '字',
        },
    ];
    assert_eq!(collator.pinyin_of("汉字"), expected);
}

#[test]
fn collator_includes_generated_first_record() {
    let collator = PinyinCollator::default();
    let records = collator.pinyin_of("〇");
    assert_eq!(records.len(), 1);
    assert_eq!(records[0].primary_pinyin(), Some("ling2"));
}

#[test]
fn collator_unknown_characters_are_preserved() {
    let collator = PinyinCollator::default();
    let records = collator.pinyin_of("a1");
    assert_eq!(
        records,
        vec![
            PinYinRecord {
                pinyin: vec![],
                character: 'a',
            },
            PinYinRecord {
                pinyin: vec![],
                character: '1',
            },
        ]
    );
}

#[test]
fn collator_phrase_override_takes_precedence() {
    let collator = PinyinCollator::with_override(PinyinOverride {
        char_override: vec![('重', "zhong4".to_string())],
        phrase_override: vec![(
            "重庆".to_string(),
            vec!["chong2".to_string(), "qing4".to_string()],
        )],
    })
    .expect("valid override should construct");
    let records = collator.pinyin_of("重庆");
    assert_eq!(records[0].primary_pinyin(), Some("chong2"));
}

#[test]
fn collator_char_override_applies_without_phrase_override() {
    let collator = PinyinCollator::with_override(PinyinOverride {
        char_override: vec![('重', "chong2".to_string())],
        phrase_override: vec![],
    })
    .expect("valid override should construct");
    let records = collator.pinyin_of("重要");
    assert_eq!(records[0].primary_pinyin(), Some("chong2"));
}

#[test]
fn collator_polyphonic_characters_expose_all_readings() {
    let collator = PinyinCollator::default();
    let records = collator.pinyin_of("乐");
    assert_eq!(records.len(), 1);
    assert!(records[0].pinyin.len() > 1);
    assert!(records[0].pinyin.iter().any(|item| item == "le4"));
    assert!(records[0].pinyin.iter().any(|item| item == "yue4"));
}

#[test]
fn collator_returns_phrase_data_for_known_phrase() {
    let collator = PinyinCollator::with_override(PinyinOverride {
        char_override: vec![],
        phrase_override: vec![(
            "重庆".to_string(),
            vec!["chong2".to_string(), "qing4".to_string()],
        )],
    })
    .expect("valid override should construct");
    let phrase = collator.phrase_data("重庆").expect("phrase override should hit");
    assert_eq!(
        phrase,
        vec![encode_primary_pinyin_unchecked("chong2"), encode_primary_pinyin_unchecked("qing4")]
    );
}

#[test]
fn collator_with_override_rejects_unencodable_syllable() {
    let bad = PinyinOverride {
        char_override: vec![('女', "nü3".to_string())],
        phrase_override: vec![],
    };
    let err = PinyinCollator::with_override(bad).expect_err("non-ASCII should fail");
    assert!(err.to_string().contains("ASCII"), "got: {}", err.to_string());
}

#[test]
fn collator_new_is_infallible_for_no_override_case() {
    let _collator = PinyinCollator::new();
}

#[test]
fn library_users_can_call_sort_strings_with_directly() {
    let collator = PinyinCollator::new();
    let sorted = sort_strings_with(
        vec![
            "汉字".to_string(),
            "照相".to_string(),
            "赵云".to_string(),
            "赵四".to_string(),
            "张三".to_string(),
        ],
        &collator,
    );
    assert_eq!(sorted, vec!["汉字", "张三", "照相", "赵四", "赵云"]);
}

#[test]
fn neutral_tone_sorts_after_marked_tones() {
    let collator = PinyinCollator::default();
    let sorted = sort_strings_with(
        vec![
            "吗".to_string(),
            "马".to_string(),
            "麻".to_string(),
            "骂".to_string(),
        ],
        &collator,
    );
    assert_eq!(sorted, vec!["麻", "马", "骂", "吗"]);
}

#[test]
fn phrase_override_with_fewer_syllables_truncates_the_key() {
    let collator = PinyinCollator::with_override(PinyinOverride {
        char_override: vec![],
        phrase_override: vec![("重庆".to_string(), vec!["chong2".to_string()])],
    })
    .expect("syllables pack");
    let records = collator.pinyin_of("重庆");
    assert_eq!(
        records,
        vec![PinYinRecord {
            pinyin: vec!["chong2".to_string()],
            character: '重',
        }]
    );
}

#[test]
fn data_for_prefers_the_character_override() {
    let plain = PinyinCollator::new();
    assert_eq!(plain.data_for('重'), Some(encode_primary_pinyin_unchecked("zhong4")));
    assert_eq!(plain.data_for('a'), None);
    assert_eq!(plain.phrase_data("重庆"), None);
    let overridden = PinyinCollator::with_override(PinyinOverride {
        char_override: vec![('重', "chong2".to_string())],
        phrase_override: vec![],
    })
    .expect("valid override should construct");
    assert_eq!(overridden.data_for('重'), Some(encode_primary_pinyin_unchecked("chong2")));
    assert_eq!(overridden.data_for('庆'), Some(encode_primary_pinyin_unchecked("qing4")));
}

#[test]
fn lookup_reads_the_bundled_table() {
    assert_eq!(primary_pinyin_for_char('行'), Some("xing2"));
    assert_eq!(all_pinyin_for_char('行'), vec!["xing2", "hang2", "hang4", "heng2"]);
    assert_eq!(primary_pinyin_for_char('a'), None);
    assert!(all_pinyin_for_char('a').is_empty());
}

#[test]
fn with_override_error_names_the_first_unencodable_syllable() {
    let result = AnyCollator::pinyin_with_override(PinyinOverride {
        char_override: vec![],
        phrase_override: vec![(
            "重庆".to_string(),
            vec!["chong2".to_string(), "qingqingqingqingq4".to_string()],
        )],
    });
    match result {
        Err(PinyinSortError::InvalidOverride(message)) => assert_eq!(
            message,
            "override syllable 'qingqingqingqingq4' cannot be encoded: syllable exceeds 16 bytes"
        ),
        other => panic!("unexpected: {other:?}"),
    }
}

#[test]
fn cloned_collator_keeps_the_override_table() {
    let collator = PinyinCollator::with_override(PinyinOverride {
        char_override: vec![('重', "chong2".to_string())],
        phrase_override: vec![("重庆".to_string(), vec!["chong2".to_string(), "qing4".to_string()])],
    })
    .expect("valid override should construct");
    let copy = collator.clone();
    assert_eq!(copy.data_for('重'), collator.data_for('重'));
    assert_eq!(copy.phrase_data("重庆"), collator.phrase_data("重庆"));
    assert_eq!(copy.pinyin_of("重要"), collator.pinyin_of("重要"));
    let any = AnyCollator::Pinyin(copy).clone();
    assert_eq!(
        any.sort(vec!["银行".to_string(), "重要".to_string()]),
        vec!["重要", "银行"]
    );
}
