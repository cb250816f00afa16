use hanzi_sort::format::{format_cell, format_items, pad_cell};
use hanzi_sort::{Align, FormatConfig, PinyinSortError};
use unicode_width::UnicodeWidthStr;

fn strings(items: &[&str]) -> Vec<String> {
    items.iter().map(|item| item.to_string()).collect()
}

#[test]
fn test_format_cell_alignment() {
    let left = FormatConfig {
        entry_width: 4,
        align: Align::Left,
        ..Default::default()
    };
    assert_eq!(format_cell("甲", &left), "甲  ");

    let right = FormatConfig {
        entry_width: 4,
        align: Align::Right,
        ..Default::default()
    };
    assert_eq!(format_cell("甲", &right), "  甲");

    let center = FormatConfig {
        entry_width: 6,
        align: Align::Center,
        ..Default::default()
    };
    assert_eq!(format_cell("test", &center), " test ");
}

#[test]
fn test_even_alignment_preserves_display_width() {
    let format_config = FormatConfig {
        entry_width: 10,
        align: Align::Even,
        ..Default::default()
    };
    let formatted = format_cell("测试", &format_config);
    assert_eq!(UnicodeWidthStr::width(formatted.as_str()), 10);
    assert_eq!(formatted, "  测  试  ");
}

#[test]
fn test_format_items() {
    let items = strings(&["甲", "乙", "丙", "丁"]);
    let format_config = FormatConfig {
        columns_per_row: 2,
        entry_width: 2,
        align: Align::Left,
        blank_per: Some(1),
        ..Default::default()
    };
    let formatted = format_items(&items, &format_config);
    assert_eq!(formatted, "甲\t乙\n\n丙\t丁\n");
}

#[test]
fn test_validate_rejects_zero_columns() {
    let result = FormatConfig {
        columns_per_row: 0,
        ..Default::default()
    }
    .validate();
    assert!(result.is_err());
}

#[test]
fn test_validate_rejects_zero_entry_width() {
    let result = FormatConfig {
        entry_width: 0,
        ..Default::default()
    }
    .validate();
    assert_eq!(
        result
            .expect_err("zero entry width should fail")
            .to_string(),
        "--entry-width must be greater than 0"
    );
}

#[test]
fn test_validate_rejects_wide_padding_char() {
    let result = FormatConfig {
        padding_char: '汉',
        ..Default::default()
    }
    .validate();
    assert_eq!(
        result
            .expect_err("wide padding char should fail")
            .to_string(),
        "--padding-char must have display width 1"
    );
}

#[test]
fn validate_accepts_the_default_layout() {
    let config = FormatConfig::default();
    assert_eq!(config.validate().expect("default layout is valid"), config);
    assert_eq!(config.columns_per_row, 6);
    assert_eq!(config.blank_per, Some(7));
    assert_eq!(config.entry_width, 4);
    assert_eq!(config.align, Align::Center);
    assert_eq!(config.padding_char, ' ');
    assert_eq!(config.separator, '\t');
    assert_eq!(config.line_ending, '\n');
}

#[test]
fn validate_names_the_first_problem() {
    let config = FormatConfig {
        columns_per_row: 0,
        entry_width: 0,
        ..Default::default()
    };
    match config.validate() {
        Err(PinyinSortError::InvalidArgument(message)) => {
            assert_eq!(message, "--columns must be greater than 0")
        }
        other => panic!("unexpected: {other:?}"),
    }
    let control = FormatConfig {
        padding_char: '\u{7}',
        ..Default::default()
    };
    assert!(control.validate_with_padding_width(None).is_err());
    assert!(control.validate().is_err());
    assert!(FormatConfig::default().validate_with_padding_width(Some(2)).is_err());
    assert!(FormatConfig::default().validate_with_padding_width(Some(1)).is_ok());
}

#[test]
fn cells_at_least_as_wide_as_the_target_are_unchanged() {
    let config = FormatConfig {
        entry_width: 2,
        ..Default::default()
    };
    assert_eq!(format_cell("汉字", &config), "汉字");
    assert_eq!(pad_cell("abc", 3, &config), "abc");
}

#[test]
fn center_puts_the_larger_half_after() {
    let config = FormatConfig {
        entry_width: 5,
        padding_char: '.',
        ..Default::default()
    };
    assert_eq!(format_cell("ab", &config), ".ab..");
}

#[test]
fn even_spreads_the_remainder_over_inner_slots_first() {
    let config = FormatConfig {
        entry_width: 9,
        align: Align::Even,
        padding_char: '.',
        ..Default::default()
    };
    // Six padding characters over four slots: one each, then the remainder
    // of two to the two inner slots.
    assert_eq!(format_cell("abc", &config), ".a..b..c.");
    let wider = FormatConfig {
        entry_width: 10,
        ..config
    };
    // Seven over four slots: one each, two inner extras, then the leading slot.
    assert_eq!(format_cell("abc", &wider), "..a..b..c.");
    let single = FormatConfig {
        entry_width: 4,
        ..config
    };
    assert_eq!(format_cell("a", &single), ".a..");
}

#[test]
fn format_items_of_nothing_is_empty() {
    let config = FormatConfig::default();
    assert_eq!(format_items(&[], &config), "");
}

#[test]
fn format_items_fills_rows_and_inserts_blank_lines() {
    let items = strings(&["a", "b", "c", "d", "e"]);
    let config = FormatConfig {
        columns_per_row: 2,
        blank_per: Some(2),
        entry_width: 1,
        separator: ',',
        line_ending: ';',
        ..Default::default()
    };
    assert_eq!(format_items(&items, &config), "a,b;c,d;;e");
    let no_blank = FormatConfig {
        blank_per: Some(0),
        ..config
    };
    assert_eq!(format_items(&items, &no_blank), "a,b;c,d;e");
}
