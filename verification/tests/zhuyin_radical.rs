use hanzi_sort::{sort_strings_with, AnyCollator, Collator, RadicalCollator, ZhuyinCollator};

#[test]
fn data_for_returns_known_zhuyin() {
    let collator = ZhuyinCollator::new();
    let han = collator.data_for('汉').expect("汉 should have zhuyin data");
    let zhong = collator.data_for('中').expect("中 should have zhuyin data");
    let yi = collator.data_for('一').expect("一 should have zhuyin data");

    assert!(han < zhong, "ㄏ should sort before ㄓ");
    assert!(zhong < yi, "initial ㄓ should sort before medial ㄧ");
    assert_ne!(han, yi);
}

#[test]
fn sort_orders_by_zhuyin_canonical_order() {
    let collator = ZhuyinCollator::new();
    let sorted = sort_strings_with(vec!["大".into(), "八".into()], &collator);
    assert_eq!(sorted, vec!["八", "大"]);
}

fn packed(radical: u32, residual: u32) -> u32 {
    radical * 1000 + residual
}

#[test]
fn data_for_returns_known_radicals() {
    let collator = RadicalCollator;

    assert_eq!(collator.data_for('一'), Some(packed(1, 0)));
    assert_eq!(collator.data_for('中'), Some(packed(2, 3)));
    assert_eq!(collator.data_for('口'), Some(packed(30, 0)));
    assert_eq!(collator.data_for('水'), Some(packed(85, 0)));
    assert_eq!(collator.data_for('汉'), Some(packed(85, 2)));
}

#[test]
fn unknown_chars_return_none() {
    let collator = RadicalCollator;

    assert_eq!(collator.data_for('a'), None);
    assert_eq!(collator.data_for('1'), None);
}

#[test]
fn sort_orders_by_radical_then_residual_strokes() {
    let sorted = sort_strings_with(
        vec![
            "汉".to_string(),
            "水".to_string(),
            "口".to_string(),
            "中".to_string(),
            "一".to_string(),
        ],
        &RadicalCollator,
    );

    assert_eq!(sorted, vec!["一", "中", "口", "水", "汉"]);
}

#[test]
fn any_collator_dispatches_to_zhuyin_and_radical() {
    let zhuyin = AnyCollator::zhuyin().sort(vec!["大".to_string(), "八".to_string()]);
    assert_eq!(zhuyin, vec!["八", "大"]);
    let radical = AnyCollator::radical().sort(vec!["汉".to_string(), "一".to_string()]);
    assert_eq!(radical, vec!["一", "汉"]);
}
