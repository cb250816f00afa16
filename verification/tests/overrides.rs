use hanzi_sort::overrides::{validate_syllable, PINYIN_MAX_TONE};
use hanzi_sort::{JyutpingOverride, PinyinOverride, PinyinSortError};

fn chars(entries: &[(char, &str)]) -> Vec<(char, String)> {
    entries.iter().map(|(c, s)| (*c, s.to_string())).collect()
}

fn phrase(key: &str, syllables: &[&str]) -> (String, Vec<String>) {
    (key.to_string(), syllables.iter().map(|s| s.to_string()).collect())
}

fn message(result: hanzi_sort::Result<()>) -> String {
    match result {
        Err(PinyinSortError::InvalidOverride(message)) => message,
        other => panic!("unexpected: {other:?}"),
    }
}

#[test]
fn test_override_rejects_phrase_length_mismatch() {
    let overrides = PinyinOverride {
        char_override: vec![],
        phrase_override: vec![phrase("重庆", &["chong2"])],
    };
    let error = overrides
        .validate()
        .expect_err("length mismatch should fail");
    assert_eq!(
        error.to_string(),
        "phrase_override entry '重庆' has 2 characters but 1 pinyin values"
    );
}

#[test]
fn test_override_rejects_empty_syllable_in_phrase() {
    let overrides = PinyinOverride {
        char_override: vec![],
        phrase_override: vec![phrase("重庆", &["", "qing4"])],
    };
    let error = overrides
        .validate()
        .expect_err("empty syllable should fail");
    assert!(
        error.to_string().contains("syllable is empty"),
        "unexpected error: {}",
        error.to_string()
    );
}

#[test]
fn test_override_rejects_non_ascii_syllable() {
    let overrides = PinyinOverride {
        char_override: chars(&[('女', "nü3")]),
        phrase_override: vec![],
    };
    let error = overrides
        .validate()
        .expect_err("non-ASCII syllable should fail");
    assert!(error.to_string().contains("ASCII"), "unexpected: {}", error.to_string());
}

#[test]
fn test_override_rejects_invalid_tone() {
    let overrides = PinyinOverride {
        char_override: chars(&[('重', "chong9")]),
        phrase_override: vec![],
    };
    let error = overrides
        .validate()
        .expect_err("tone 9 should fail because 9 is not in the valid 1-5 range");
    assert!(
        error.to_string().contains("tone digit"),
        "unexpected: {}",
        error.to_string()
    );
}

#[test]
fn test_override_rejects_uppercase_syllable() {
    let overrides = PinyinOverride {
        char_override: chars(&[('重', "Chong2")]),
        phrase_override: vec![],
    };
    let error = overrides
        .validate()
        .expect_err("uppercase letter should fail");
    assert!(error.to_string().contains("lowercase ASCII"));
}

#[test]
fn test_override_rejects_empty_phrase_key() {
    let mut overrides = PinyinOverride::default();
    overrides
        .phrase_override
        .push((String::new(), vec!["a1".to_string()]));
    let error = overrides
        .validate()
        .expect_err("empty phrase key should fail");
    assert!(error.to_string().contains("cannot be empty"));
}

#[test]
fn test_override_rejects_toneless_syllable() {
    let overrides = PinyinOverride {
        char_override: chars(&[('了', "le")]),
        phrase_override: vec![],
    };
    let error = overrides
        .validate()
        .expect_err("toneless syllable should fail");
    assert!(
        error.to_string().contains("tone digit"),
        "unexpected: {}",
        error.to_string()
    );
}

#[test]
fn test_override_accepts_valid_syllables() {
    let overrides = PinyinOverride {
        char_override: chars(&[('重', "chong2"), ('行', "xing2"), ('〇', "ling2"), ('了', "le5")]),
        phrase_override: vec![phrase("重庆", &["chong2", "qing4"])],
    };
    overrides
        .validate()
        .expect("all syllables should be accepted");
}

#[test]
fn validation_messages_name_the_entry() {
    let char_entry = PinyinOverride {
        char_override: chars(&[('重', "chong9")]),
        phrase_override: vec![],
    };
    assert_eq!(
        message(char_entry.validate()),
        "char_override entry '重' has invalid pinyin 'chong9': syllable must end with a tone digit 1-5 (use 5 for neutral / light tone)"
    );
    let phrase_entry = JyutpingOverride {
        char_override: vec![],
        phrase_override: vec![phrase("重庆", &["cung4", "hing7"])],
    };
    assert_eq!(
        message(phrase_entry.validate()),
        "phrase_override entry '重庆' has invalid jyutping 'hing7': syllable must end with a tone digit 1-6"
    );
    let jyutping_ok = JyutpingOverride {
        char_override: chars(&[('重', "zung6")]),
        phrase_override: vec![],
    };
    assert!(jyutping_ok.validate().is_ok());
}

#[test]
fn validate_syllable_checks_each_rule() {
    assert_eq!(validate_syllable("ma3", PINYIN_MAX_TONE), Ok(()));
    assert_eq!(validate_syllable("", PINYIN_MAX_TONE), Err("syllable is empty"));
    assert_eq!(
        validate_syllable("3", PINYIN_MAX_TONE),
        Err("syllable must contain at least one letter before the tone digit")
    );
    assert_eq!(
        validate_syllable("ma6", 6),
        Ok(())
    );
    assert_eq!(
        validate_syllable("ma6", 4),
        Err("syllable must end with a valid tone digit")
    );
    assert_eq!(
        validate_syllable("m-a3", PINYIN_MAX_TONE),
        Err("syllable letters must be lowercase ASCII")
    );
}

#[test]
fn validated_tables_construct_a_collator() {
    let overrides = PinyinOverride {
        char_override: chars(&[('重', "chong2")]),
        phrase_override: vec![phrase("重庆", &["chong2", "qing4"])],
    };
    assert!(overrides.validate().is_ok());
    assert!(hanzi_sort::PinyinCollator::with_override(overrides).is_ok());
}

#[test]
fn validation_does_not_bound_syllable_length() {
    let overrides = PinyinOverride {
        char_override: chars(&[('重', "aaaaaaaaaaaaaaaaa1")]),
        phrase_override: vec![],
    };
    assert!(overrides.validate().is_ok());
    match hanzi_sort::PinyinCollator::with_override(overrides) {
        Err(PinyinSortError::InvalidOverride(message)) => assert_eq!(
            message,
            "override syllable 'aaaaaaaaaaaaaaaaa1' cannot be encoded: syllable exceeds 16 bytes"
        ),
        Err(other) => panic!("unexpected: {other:?}"),
        Ok(_) => panic!("a syllable longer than 16 bytes cannot be packed"),
    }
}

#[test]
fn validation_refuses_a_key_listed_twice() {
    let chars_twice = PinyinOverride {
        char_override: chars(&[('重', "chong2"), ('行', "xing2"), ('重', "zhong4")]),
        phrase_override: vec![],
    };
    assert_eq!(
        message(chars_twice.validate()),
        "char_override entry '重' is listed more than once"
    );
    let phrase_twice = JyutpingOverride {
        char_override: vec![],
        phrase_override: vec![phrase("重庆", &["cung4", "hing3"]), phrase("重庆", &["zung6", "hing3"])],
    };
    assert_eq!(
        message(phrase_twice.validate()),
        "phrase_override entry '重庆' is listed more than once"
    );
}
