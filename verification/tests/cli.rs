use std::path::PathBuf;

use hanzi_sort::cli::{
    build_collator, override_schema, CliAlign, CliArgs, CliSortMode, OverrideData, OverrideSchema,
};
use hanzi_sort::{Align, AnyCollator, InputSource, JyutpingOverride, PinyinOverride, PinyinSortError};

fn args_with_text(texts: &[&str]) -> CliArgs {
    CliArgs {
        input_files: vec![],
        input_texts: texts.iter().map(|t| t.to_string()).collect(),
        output_path: None,
        config_path: None,
        columns_per_row: 6,
        blank_per: None,
        entry_width: 4,
        align: CliAlign::Center,
        padding_char: ' ',
        separator: None,
        line_ending: None,
        sort_by: CliSortMode::Pinyin,
        reverse: false,
        unique: false,
    }
}

fn override_chong() -> OverrideData {
    OverrideData::Pinyin(PinyinOverride {
        char_override: vec![('重', "chong2".to_string())],
        phrase_override: vec![],
    })
}

fn jyutping_override_zung() -> OverrideData {
    OverrideData::Jyutping(JyutpingOverride {
        char_override: vec![('重', "zung6".to_string())],
        phrase_override: vec![],
    })
}

#[test]
fn detects_whether_any_input_was_provided() {
    let args = args_with_text(&["赵四"]);
    assert!(args.has_input());

    let args = args_with_text(&[]);
    assert!(!args.has_input());
}

#[test]
fn converts_zero_blank_every_to_none() {
    let args = CliArgs {
        blank_per: Some(0),
        ..args_with_text(&["赵四"])
    };
    let (config, output_path) = args
        .into_runtime_parts(None)
        .expect("runtime config should be created");

    assert_eq!(config.format.blank_per, None);
    assert_eq!(output_path, None);
}

#[test]
fn applies_format_option_overrides() {
    let args = CliArgs {
        columns_per_row: 3,
        blank_per: Some(2),
        entry_width: 6,
        align: CliAlign::Right,
        padding_char: '.',
        separator: Some(','),
        line_ending: Some(';'),
        output_path: Some(PathBuf::from("sorted.txt")),
        ..args_with_text(&["赵四"])
    };
    let (config, output_path) = args
        .into_runtime_parts(None)
        .expect("runtime config should be created");

    assert_eq!(config.format.columns_per_row, 3);
    assert_eq!(config.format.blank_per, Some(2));
    assert_eq!(config.format.entry_width, 6);
    assert_eq!(config.format.align, Align::Right);
    assert_eq!(config.format.padding_char, '.');
    assert_eq!(config.format.separator, ',');
    assert_eq!(config.format.line_ending, ';');
    assert!(matches!(config.collator, AnyCollator::Pinyin(_)));
    assert_eq!(output_path, Some(PathBuf::from("sorted.txt")));
}

#[test]
fn supports_stroke_sort_mode() {
    let args = CliArgs {
        sort_by: CliSortMode::Strokes,
        ..args_with_text(&["十", "一"])
    };
    let (config, _) = args
        .into_runtime_parts(None)
        .expect("runtime config should be created");

    assert!(matches!(config.collator, AnyCollator::Strokes(_)));
}

#[test]
fn loads_override_data_when_config_path_is_provided() {
    let args = args_with_text(&["重要"]);
    let (config, _) = args
        .into_runtime_parts(Some(override_chong()))
        .expect("override data should load");

    assert!(matches!(config.collator, AnyCollator::Pinyin(_)));
    let sorted = config.collator.sort(vec!["银行".to_string(), "重要".to_string()]);
    assert_eq!(sorted, vec!["重要", "银行"]);
}

#[test]
fn rejects_override_with_stroke_mode() {
    let args = CliArgs {
        sort_by: CliSortMode::Strokes,
        ..args_with_text(&["重"])
    };
    let error = args
        .into_runtime_parts(Some(override_chong()))
        .expect_err("override + strokes should fail");
    assert!(
        error.to_string().contains("--config is not supported with --sort-by strokes"),
        "unexpected: {}",
        error.to_string()
    );
}

#[test]
fn defaults_fill_in_left_out_options() {
    let (config, _) = args_with_text(&["赵四"])
        .into_runtime_parts(None)
        .expect("runtime config should be created");
    assert_eq!(config.format.blank_per, Some(7));
    assert_eq!(config.format.separator, '\t');
    assert_eq!(config.format.line_ending, '\n');
    assert_eq!(config.format.align, Align::Center);
    assert_eq!(config.input, InputSource::Text(vec!["赵四".to_string()]));
}

#[test]
fn files_win_over_text_and_no_input_means_stdin() {
    let with_file = CliArgs {
        input_files: vec![PathBuf::from("names.txt")],
        ..args_with_text(&[])
    };
    let (config, _) = with_file.into_runtime_parts(None).expect("files are input");
    assert_eq!(config.input, InputSource::Files(vec![PathBuf::from("names.txt")]));
    let (config, _) = args_with_text(&[])
        .into_runtime_parts(None)
        .expect("stdin is input");
    assert_eq!(config.input, InputSource::Stdin);
}

#[test]
fn build_collator_refuses_overrides_where_the_scheme_takes_none() {
    for (mode, name) in [
        (CliSortMode::Strokes, "strokes"),
        (CliSortMode::Zhuyin, "zhuyin"),
        (CliSortMode::Radical, "radical"),
    ] {
        match build_collator(mode, Some(override_chong())) {
            Err(PinyinSortError::InvalidArgument(message)) => assert_eq!(
                message,
                format!("--config is not supported with --sort-by {name}")
            ),
            other => panic!("unexpected: {other:?}"),
        }
    }
    assert!(matches!(build_collator(CliSortMode::Jyutping, None), Ok(AnyCollator::Jyutping(_))));
    assert!(matches!(build_collator(CliSortMode::Zhuyin, None), Ok(AnyCollator::Zhuyin(_))));
    assert!(matches!(build_collator(CliSortMode::Radical, None), Ok(AnyCollator::Radical(_))));
}

#[test]
fn jyutping_accepts_a_jyutping_override_table() {
    let collator = build_collator(CliSortMode::Jyutping, Some(jyutping_override_zung()))
        .expect("a jyutping table is accepted with --sort-by jyutping");
    assert!(matches!(collator, AnyCollator::Jyutping(_)));
    let args = CliArgs {
        sort_by: CliSortMode::Jyutping,
        ..args_with_text(&["重", "中"])
    };
    let (config, _) = args
        .into_runtime_parts(Some(jyutping_override_zung()))
        .expect("runtime config should be created");
    // 重 reads zung6 through the override, after 中 (zung1).
    assert_eq!(
        config.collator.sort(vec!["重".to_string(), "中".to_string()]),
        vec!["中", "重"]
    );
}

#[test]
fn override_table_of_the_other_kind_is_refused() {
    match build_collator(CliSortMode::Jyutping, Some(override_chong())) {
        Err(PinyinSortError::InvalidArgument(message)) => {
            assert_eq!(message, "the override table is not for --sort-by jyutping")
        }
        other => panic!("unexpected: {other:?}"),
    }
    match build_collator(CliSortMode::Pinyin, Some(jyutping_override_zung())) {
        Err(PinyinSortError::InvalidArgument(message)) => {
            assert_eq!(message, "the override table is not for --sort-by pinyin")
        }
        other => panic!("unexpected: {other:?}"),
    }
}

#[test]
fn override_files_are_read_with_the_scheme_schema() {
    assert_eq!(override_schema(CliSortMode::Jyutping), OverrideSchema::Jyutping);
    assert_eq!(override_schema(CliSortMode::Pinyin), OverrideSchema::Pinyin);
    assert_eq!(override_schema(CliSortMode::Strokes), OverrideSchema::Pinyin);
}

#[test]
fn cli_align_converts_to_align() {
    assert_eq!(Align::from(CliAlign::Left), Align::Left);
    assert_eq!(Align::from(CliAlign::Center), Align::Center);
    assert_eq!(Align::from(CliAlign::Right), Align::Right);
    assert_eq!(Align::from(CliAlign::Even), Align::Even);
    assert_eq!(CliSortMode::default(), CliSortMode::Pinyin);
}
