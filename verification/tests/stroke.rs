use hanzi_sort::stroke::stroke_count_for_char;
use hanzi_sort::{sort_strings_with, AnyCollator, Collator, StrokesCollator};

#[test]
fn looks_up_representative_stroke_counts() {
    assert_eq!(stroke_count_for_char('一'), Some(1));
    assert_eq!(stroke_count_for_char('十'), Some(2));
    assert_eq!(stroke_count_for_char('重'), Some(9));
}

#[test]
fn returns_none_for_unknown_non_hanzi_characters() {
    assert_eq!(stroke_count_for_char('a'), None);
    assert_eq!(stroke_count_for_char('1'), None);
}

#[test]
fn collator_sorts_by_stroke_count_ascending() {
    let sorted = sort_strings_with(
        vec![
            "天".to_string(),
            "一".to_string(),
            "十".to_string(),
            "大".to_string(),
        ],
        &StrokesCollator,
    );
    assert_eq!(sorted, vec!["一", "十", "大", "天"]);
}

#[test]
fn collator_places_unknown_characters_after_known_ones() {
    let sorted = sort_strings_with(
        vec!["abc".to_string(), "十".to_string(), "1".to_string()],
        &StrokesCollator,
    );
    assert_eq!(sorted, vec!["十", "1", "abc"]);
}

#[test]
fn strokes_data_for_reads_the_table() {
    assert_eq!(StrokesCollator.data_for('天'), Some(4));
    assert_eq!(StrokesCollator.data_for('x'), None);
    assert_eq!(StrokesCollator.phrase_data("天一"), None);
}

#[test]
fn equal_stroke_counts_tiebreak_on_the_character() {
    // 七 (U+4E03) and 十 (U+5341) both have two strokes.
    let sorted = AnyCollator::strokes().sort(vec!["十".to_string(), "七".to_string()]);
    assert_eq!(sorted, vec!["七", "十"]);
}
