use hanzi_sort::name::match_surname_prefix;
use hanzi_sort::pinyin::key::encode_primary_pinyin_unchecked;
use hanzi_sort::{sort_strings_with, Collator, NameCollator};

#[test]
fn surname_polyphones_sort_by_surname_reading() {
    let sorted = sort_strings_with(
        vec!["单".to_string(), "区".to_string(), "解".to_string()],
        &NameCollator::new(),
    );
    assert_eq!(sorted, vec!["区", "单", "解"]);
}

#[test]
fn compound_surname_matched_as_a_unit() {
    let sorted = sort_strings_with(
        vec!["牛".to_string(), "万俟".to_string()],
        &NameCollator::new(),
    );
    assert_eq!(sorted, vec!["万俟", "牛"]);
}

#[test]
fn surname_reading_applies_only_to_the_leading_character() {
    let sorted = sort_strings_with(
        vec!["陈区".to_string(), "陈单".to_string()],
        &NameCollator::new(),
    );
    assert_eq!(sorted, vec!["陈单", "陈区"]);
}

#[test]
fn non_surname_entries_sort_like_pinyin() {
    let sorted = sort_strings_with(
        vec![
            "汉字".to_string(),
            "张三".to_string(),
            "赵四".to_string(),
        ],
        &NameCollator::new(),
    );
    assert_eq!(sorted, vec!["汉字", "张三", "赵四"]);
}

#[test]
fn surname_prefix_prefers_the_compound_surname() {
    assert_eq!(match_surname_prefix("万俟卨"), Some((2, ["mo4", "qi2"])));
    assert_eq!(match_surname_prefix("单田芳"), Some((1, ["shan4", ""])));
    assert_eq!(match_surname_prefix("张三"), None);
    assert_eq!(match_surname_prefix(""), None);
}

#[test]
fn phrase_data_reads_the_surname_then_plain_pinyin() {
    let collator = NameCollator::new();
    assert_eq!(
        collator.phrase_data("单三"),
        Some(vec![encode_primary_pinyin_unchecked("shan4"), encode_primary_pinyin_unchecked("san1")])
    );
    // A later character without a reading sends the whole entry back to
    // character-by-character keys.
    assert_eq!(collator.phrase_data("单x"), None);
    assert_eq!(collator.phrase_data("张三"), None);
    assert_eq!(collator.data_for('单'), Some(encode_primary_pinyin_unchecked("dan1")));
}
