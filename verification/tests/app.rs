use hanzi_sort::app::render;
use hanzi_sort::input::{split_header, text_input, Input};
use hanzi_sort::{
    AnyCollator, Align, FormatConfig, HeaderSpec, InputSource, PinyinOverride, PinyinSortError,
    RuntimeConfig,
};

fn strings(items: &[&str]) -> Vec<String> {
    items.iter().map(|item| item.to_string()).collect()
}

fn single_column_format() -> FormatConfig {
    FormatConfig {
        columns_per_row: 1,
        blank_per: None,
        entry_width: 2,
        align: Align::Left,
        ..Default::default()
    }
}

fn run(lines: &[&str], spec: HeaderSpec) -> (Vec<String>, Vec<String>) {
    let mut headers = Vec::new();
    let mut body = Vec::new();
    split_header(strings(lines), &spec, &mut headers, &mut body);
    (headers, body)
}

fn render_text(config: RuntimeConfig) -> String {
    let input = match &config.input {
        InputSource::Text(items) => text_input(items),
        _ => panic!("text input expected"),
    };
    render(config, input)
}

#[test]
fn drops_first_n_lines() {
    let (headers, body) = run(&["name", "赵四", "汉字"], HeaderSpec { lines: 1, keep: false });
    assert!(headers.is_empty());
    assert_eq!(body, vec!["赵四", "汉字"]);
}

#[test]
fn keeps_first_n_lines_verbatim() {
    let (headers, body) = run(
        &["col1", "col2", "赵四", "汉字"],
        HeaderSpec { lines: 2, keep: true },
    );
    assert_eq!(headers, vec!["col1", "col2"]);
    assert_eq!(body, vec!["赵四", "汉字"]);
}

#[test]
fn header_larger_than_input_consumes_everything() {
    let (headers, body) = run(&["only"], HeaderSpec { lines: 3, keep: false });
    assert!(headers.is_empty());
    assert!(body.is_empty());
}

#[test]
fn blank_lines_in_header_region_are_consumed_blanks_in_body_filtered() {
    let (headers, body) = run(
        &["name", "", "赵四", "", "汉字"],
        HeaderSpec { lines: 2, keep: true },
    );
    assert_eq!(headers, vec!["name", ""]);
    assert_eq!(body, vec!["赵四", "汉字"]);
}

#[test]
fn zero_lines_is_a_noop_with_blank_filtering() {
    let (headers, body) = run(&["赵四", "", "汉字"], HeaderSpec::default());
    assert!(headers.is_empty());
    assert_eq!(body, vec!["赵四", "汉字"]);
}

#[test]
fn split_header_appends_to_what_earlier_sources_gave() {
    let mut headers = strings(&["hdr1"]);
    let mut body = strings(&["赵四"]);
    split_header(
        strings(&["hdr2", " \t", "张三"]),
        &HeaderSpec { lines: 1, keep: true },
        &mut headers,
        &mut body,
    );
    assert_eq!(headers, vec!["hdr1", "hdr2"]);
    assert_eq!(body, vec!["赵四", "张三"]);
}

#[test]
fn text_input_drops_blank_items() {
    let input = text_input(&strings(&["赵四", "  ", "", "汉字"]));
    assert!(input.headers.is_empty());
    assert_eq!(input.body, vec!["赵四", "汉字"]);
}

#[test]
fn renders_sorted_text_input() {
    let config = RuntimeConfig::new(
        InputSource::Text(strings(&["赵四", "张三", "汉字"])),
        single_column_format(),
        AnyCollator::pinyin(),
    )
    .expect("runtime config should be created");

    let rendered = render_text(config);
    assert_eq!(rendered, "汉字\n张三\n赵四");
}

#[test]
fn renders_with_overrides() {
    let collator = AnyCollator::pinyin_with_override(PinyinOverride {
        char_override: vec![],
        phrase_override: vec![(
            "重庆".to_string(),
            vec!["chong2".to_string(), "qing4".to_string()],
        )],
    })
    .expect("override collator should construct");
    let config = RuntimeConfig::new(
        InputSource::Text(strings(&["银行", "重庆"])),
        single_column_format(),
        collator,
    )
    .expect("runtime config should be created");

    let rendered = render_text(config);
    assert_eq!(rendered, "重庆\n银行");
}

#[test]
fn applies_formatting_options_during_render() {
    let format = FormatConfig {
        columns_per_row: 2,
        blank_per: Some(1),
        entry_width: 4,
        align: Align::Right,
        padding_char: '.',
        separator: ',',
        line_ending: ';',
    };
    let config = RuntimeConfig::new(
        InputSource::Text(strings(&["乙", "甲", "丙"])),
        format,
        AnyCollator::pinyin(),
    )
    .expect("runtime config should be created");

    let rendered = render_text(config);
    assert_eq!(rendered, "..丙,..甲;;..乙;");
}

#[test]
fn renders_stroke_sorted_output() {
    let config = RuntimeConfig::new(
        InputSource::Text(strings(&["天", "一", "十"])),
        single_column_format(),
        AnyCollator::strokes(),
    )
    .expect("runtime config should be created");

    let rendered = render_text(config);
    assert_eq!(rendered, "一\n十\n天");
}

#[test]
fn skip_header_drops_leading_line_before_sorting() {
    let config = RuntimeConfig::new(
        InputSource::Stdin,
        single_column_format(),
        AnyCollator::pinyin(),
    )
    .expect("runtime config should be created")
    .with_header(HeaderSpec { lines: 1, keep: false });
    let mut headers = Vec::new();
    let mut body = Vec::new();
    split_header(strings(&["name", "赵四", "汉字"]), &config.header, &mut headers, &mut body);
    let rendered = render(config, Input { headers, body });
    assert_eq!(rendered, "汉字\n赵四");
}

#[test]
fn keep_header_pins_leading_line_above_sorted_body() {
    let config = RuntimeConfig::new(
        InputSource::Stdin,
        single_column_format(),
        AnyCollator::pinyin(),
    )
    .expect("runtime config should be created")
    .with_header(HeaderSpec { lines: 1, keep: true });
    let mut headers = Vec::new();
    let mut body = Vec::new();
    split_header(strings(&["name", "赵四", "汉字"]), &config.header, &mut headers, &mut body);
    let rendered = render(config, Input { headers, body });
    assert_eq!(rendered, "name\n汉字\n赵四");
}

#[test]
fn skip_header_applies_per_file_when_merging() {
    let config = RuntimeConfig::new(
        InputSource::Stdin,
        single_column_format(),
        AnyCollator::pinyin(),
    )
    .expect("runtime config should be created")
    .with_header(HeaderSpec { lines: 1, keep: false });
    let mut headers = Vec::new();
    let mut body = Vec::new();
    split_header(strings(&["hdr1", "赵四", "汉字"]), &config.header, &mut headers, &mut body);
    split_header(strings(&["hdr2", "张三"]), &config.header, &mut headers, &mut body);
    let rendered = render(config, Input { headers, body });
    assert_eq!(rendered, "汉字\n张三\n赵四");
}

#[test]
fn header_only_output_has_no_trailing_line_ending() {
    let config = RuntimeConfig::new(
        InputSource::Stdin,
        single_column_format(),
        AnyCollator::pinyin(),
    )
    .expect("runtime config should be created");
    let rendered = render(
        config,
        Input {
            headers: strings(&["a", "b"]),
            body: vec![],
        },
    );
    assert_eq!(rendered, "a\nb");
}

#[test]
fn unique_and_reverse_apply_after_sorting() {
    let config = RuntimeConfig::new(
        InputSource::Text(strings(&["赵四", "汉字", "赵四", "张三", "汉字"])),
        single_column_format(),
        AnyCollator::pinyin(),
    )
    .expect("runtime config should be created")
    .with_unique(true)
    .with_reverse(true);
    assert!(config.unique && config.reverse);
    let rendered = render_text(config);
    assert_eq!(rendered, "赵四\n张三\n汉字");
}

#[test]
fn runtime_config_rejects_empty_input_and_bad_layout() {
    let empty = RuntimeConfig::new(
        InputSource::Text(vec![]),
        FormatConfig::default(),
        AnyCollator::pinyin(),
    );
    match empty {
        Err(PinyinSortError::InvalidArgument(message)) => {
            assert_eq!(message, "at least one input file or text item is required")
        }
        other => panic!("unexpected: {other:?}"),
    }
    let bad = RuntimeConfig::new(
        InputSource::Stdin,
        FormatConfig {
            columns_per_row: 0,
            ..Default::default()
        },
        AnyCollator::strokes(),
    );
    assert!(matches!(bad, Err(PinyinSortError::InvalidArgument(_))));
    let config = RuntimeConfig::new(InputSource::Stdin, FormatConfig::default(), AnyCollator::zhuyin())
        .expect("stdin with the default layout is accepted");
    assert!(!config.unique && !config.reverse);
    assert_eq!(config.header, HeaderSpec { lines: 0, keep: false });
}

#[test]
fn input_source_emptiness() {
    assert!(InputSource::Files(vec![]).is_empty());
    assert!(InputSource::Text(vec![]).is_empty());
    assert!(!InputSource::Stdin.is_empty());
    assert!(!InputSource::Text(strings(&["a"])).is_empty());
}

#[test]
fn unique_keeps_duplicates_that_an_equal_key_separates() {
    // A phrase entry with fewer syllables than characters gives 重庆 the same
    // key as 重, so the stable sort keeps the input order and the two 重庆
    // are not adjacent.
    let collator = AnyCollator::pinyin_with_override(PinyinOverride {
        char_override: vec![('重', "chong2".to_string())],
        phrase_override: vec![("重庆".to_string(), vec!["chong2".to_string()])],
    })
    .expect("syllables pack");
    let config = RuntimeConfig::new(
        InputSource::Text(strings(&["重庆", "重", "重庆"])),
        single_column_format(),
        collator,
    )
    .expect("runtime config should be created")
    .with_unique(true);
    assert_eq!(render_text(config), "重庆\n重\n重庆");
}

#[test]
fn unique_lists_each_entry_once_however_interleaved() {
    let config = RuntimeConfig::new(
        InputSource::Text(strings(&["赵四", "汉字", "张三", "汉字", "赵四", "张三", "汉字"])),
        single_column_format(),
        AnyCollator::pinyin(),
    )
    .expect("runtime config should be created")
    .with_unique(true);
    assert_eq!(render_text(config), "汉字\n张三\n赵四");
}
