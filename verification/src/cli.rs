//! Command-line options and how they become a run configuration.
use std::path::PathBuf;
use vstd::prelude::*;

use crate::collator::AnyCollator;
use crate::config::{config_problem, HeaderSpec, InputSource, RuntimeConfig};
use crate::error::{HanziSortError, Result};
use crate::format::{Align, FormatConfig};
use crate::overrides::{JyutpingOverride, PinyinOverride};
use crate::pinyin::key::packing_failure;
use crate::text::push_str;

verus! {

/// The `--align` choices.
#[derive(Copy, Clone, Debug, PartialEq, Eq)]
pub enum CliAlign {
    Left,
    Center,
    Right,
    Even,
}

/// The alignment a `--align` choice names.
pub open spec fn align_of(value: CliAlign) -> Align {
    match value {
        CliAlign::Left => Align::Left,
        CliAlign::Center => Align::Center,
        CliAlign::Right => Align::Right,
        CliAlign::Even => Align::Even,
    }
}

impl From<CliAlign> for Align {
    fn from(value: CliAlign) -> (a: Self) {
        match value {
            CliAlign::Left => Align::Left,
            CliAlign::Center => Align::Center,
            CliAlign::Right => Align::Right,
            CliAlign::Even => Align::Even,
        }
    }
}

impl vstd::std_specs::convert::FromSpecImpl<CliAlign> for Align {
    open spec fn obeys_from_spec() -> bool {
        true
    }

    open spec fn from_spec(v: CliAlign) -> Align {
        align_of(v)
    }
}

/// The `--sort-by` choices.
#[derive(Copy, Clone, Debug, PartialEq, Eq, Default)]
pub enum CliSortMode {
    #[default]
    Pinyin,
    Strokes,
    /// Cantonese Jyutping.
    Jyutping,
    /// Mandarin Zhuyin / Bopomofo.
    Zhuyin,
    /// Kangxi radical and residual strokes.
    Radical,
}

/// The command-line options of a sorting run.
#[derive(Debug)]
pub struct CliArgs {
    /// Input files (`-` reads standard input).
    pub input_files: Vec<PathBuf>,
    /// Inline text items.
    pub input_texts: Vec<String>,
    /// Output file; standard output when absent.
    pub output_path: Option<PathBuf>,
    /// Override table file.
    pub config_path: Option<PathBuf>,
    pub columns_per_row: usize,
    /// Blank line every `n` rows; `Some(0)` disables, absent keeps the default.
    pub blank_per: Option<usize>,
    pub entry_width: usize,
    pub align: CliAlign,
    pub padding_char: char,
    pub separator: Option<char>,
    pub line_ending: Option<char>,
    pub sort_by: CliSortMode,
    pub reverse: bool,
    pub unique: bool,
}

/// Where the options say the input comes from: the files if any, else the
/// text items if any, else standard input.
pub open spec fn cli_input(files: Vec<PathBuf>, texts: Vec<String>) -> InputSource {
    if files@.len() > 0 {
        InputSource::Files(files)
    } else if texts@.len() > 0 {
        InputSource::Text(texts)
    } else {
        InputSource::Stdin
    }
}

/// The layout the options ask for; options left out take the defaults.
pub open spec fn cli_format(args: CliArgs) -> FormatConfig {
    FormatConfig {
        columns_per_row: args.columns_per_row,
        blank_per: match args.blank_per {
            None => Some(7usize),
            Some(n) => if n > 0 {
                Some(n)
            } else {
                None
            },
        },
        entry_width: args.entry_width,
        align: align_of(args.align),
        padding_char: args.padding_char,
        separator: match args.separator {
            Some(c) => c,
            None => '\t',
        },
        line_ending: match args.line_ending {
            Some(c) => c,
            None => '\n',
        },
    }
}

/// The name of a sort scheme in messages.
pub open spec fn scheme_name(mode: CliSortMode) -> Seq<char> {
    match mode {
        CliSortMode::Pinyin => "pinyin"@,
        CliSortMode::Strokes => "strokes"@,
        CliSortMode::Jyutping => "jyutping"@,
        CliSortMode::Zhuyin => "zhuyin"@,
        CliSortMode::Radical => "radical"@,
    }
}

/// An override table read from a `--config` file.
#[derive(Debug, Clone)]
pub enum OverrideData {
    /// A pinyin table (tone digits 1-5), for the pinyin scheme.
    Pinyin(PinyinOverride),
    /// A Jyutping table (tone digits 1-6), for the Jyutping scheme.
    Jyutping(JyutpingOverride),
}

/// Which schema a `--config` file is read with.
#[derive(Debug, Clone, Copy, PartialEq, Eq)]
pub enum OverrideSchema {
    Pinyin,
    Jyutping,
}

/// The schema a `--config` file is read with under scheme `sort_by`: a
/// Jyutping table for Jyutping, a pinyin table otherwise.
pub fn override_schema(sort_by: CliSortMode) -> (schema: OverrideSchema)
    ensures
        schema == (if sort_by == CliSortMode::Jyutping {
            OverrideSchema::Jyutping
        } else {
            OverrideSchema::Pinyin
        }),
{
    match sort_by {
        CliSortMode::Jyutping => OverrideSchema::Jyutping,
        _ => OverrideSchema::Pinyin,
    }
}

/// The pinyin table of `o`, if it is one.
pub open spec fn pinyin_table(o: Option<OverrideData>) -> Option<PinyinOverride> {
    match o {
        Some(OverrideData::Pinyin(t)) => Some(t),
        _ => None,
    }
}

/// The Jyutping table of `o`, if it is one.
pub open spec fn jyutping_table(o: Option<OverrideData>) -> Option<JyutpingOverride> {
    match o {
        Some(OverrideData::Jyutping(t)) => Some(t),
        _ => None,
    }
}

/// Why an override table cannot be packed into keys, if it cannot.
pub open spec fn table_packing_failure(table: OverrideData) -> Option<Seq<char>> {
    match table {
        OverrideData::Pinyin(t) => packing_failure(t.char_view(), t.phrase_view()),
        OverrideData::Jyutping(t) => packing_failure(t.char_view(), t.phrase_view()),
    }
}

/// The table is of the kind that scheme `mode` takes: pinyin tables for
/// pinyin, Jyutping tables for Jyutping; the other schemes take none.
pub open spec fn table_fits_scheme(mode: CliSortMode, table: OverrideData) -> bool {
    match table {
        OverrideData::Pinyin(_) => mode == CliSortMode::Pinyin,
        OverrideData::Jyutping(_) => mode == CliSortMode::Jyutping,
    }
}

/// The message refusing an override table that scheme `mode` does not
/// take.
pub open spec fn rejection_message(mode: CliSortMode) -> Seq<char> {
    if mode == CliSortMode::Pinyin || mode == CliSortMode::Jyutping {
        "the override table is not for --sort-by "@ + scheme_name(mode)
    } else {
        "--config is not supported with --sort-by "@ + scheme_name(mode)
    }
}

/// `collator` is the collator of scheme `mode` with override table `o`.
pub open spec fn collator_fits(collator: AnyCollator, mode: CliSortMode, o: Option<OverrideData>) -> bool {
    match mode {
        CliSortMode::Pinyin => collator matches AnyCollator::Pinyin(p) && p.overrides() == pinyin_table(o),
        CliSortMode::Strokes => collator is Strokes,
        CliSortMode::Jyutping => collator matches AnyCollator::Jyutping(j) && j.overrides() == jyutping_table(
            o,
        ),
        CliSortMode::Zhuyin => collator is Zhuyin,
        CliSortMode::Radical => collator is Radical,
    }
}

/// Whether a collator can be built for scheme `mode` with override table
/// `o`: pinyin takes a pinyin table and Jyutping a Jyutping table, whose
/// syllables must all pack into sort keys; the other schemes take none.
pub open spec fn collator_buildable(mode: CliSortMode, o: Option<OverrideData>) -> bool {
    match o {
        Some(table) => table_fits_scheme(mode, table) && table_packing_failure(table) is None,
        None => true,
    }
}

/// What building a collator for `mode` with override table `o` gives.
pub open spec fn collator_result(mode: CliSortMode, o: Option<OverrideData>, r: Result<AnyCollator>) -> bool {
    &&& r is Ok <==> collator_buildable(mode, o)
    &&& r matches Ok(c) ==> collator_fits(c, mode, o)
    &&& r matches Err(e) ==> match o {
        Some(table) => if table_fits_scheme(mode, table) {
            e matches HanziSortError::InvalidOverride(m) && table_packing_failure(table) == Some(m@)
        } else {
            e matches HanziSortError::InvalidArgument(m) && m@ == rejection_message(mode)
        },
        None => false,
    }
}

/// The error refusing an override table under scheme `scheme`.
fn reject_override(scheme: &str) -> (e: HanziSortError)
    ensures
        e matches HanziSortError::InvalidArgument(m) && m@ == "--config is not supported with --sort-by "@
            + scheme@,
{
    let mut m = String::new();
    push_str(&mut m, "--config is not supported with --sort-by ");
    push_str(&mut m, scheme);
    HanziSortError::InvalidArgument(m)
}

/// The error refusing an override table of the other kind under scheme
/// `scheme`.
fn reject_table_kind(scheme: &str) -> (e: HanziSortError)
    ensures
        e matches HanziSortError::InvalidArgument(m) && m@ == "the override table is not for --sort-by "@
            + scheme@,
{
    let mut m = String::new();
    push_str(&mut m, "the override table is not for --sort-by ");
    push_str(&mut m, scheme);
    HanziSortError::InvalidArgument(m)
}

/// The collator for scheme `sort_by`. Pinyin honors a pinyin override
/// table and Jyutping a Jyutping one; the other schemes refuse a table.
pub fn build_collator(sort_by: CliSortMode, override_data: Option<OverrideData>) -> (r: Result<AnyCollator>)
    ensures
        collator_result(sort_by, override_data, r),
{
    proof {
        reveal_strlit("pinyin");
        reveal_strlit("strokes");
        reveal_strlit("jyutping");
        reveal_strlit("zhuyin");
        reveal_strlit("radical");
    }
    match sort_by {
        CliSortMode::Pinyin => match override_data {
            Some(OverrideData::Pinyin(o)) => AnyCollator::pinyin_with_override(o),
            Some(OverrideData::Jyutping(_)) => Err(reject_table_kind("pinyin")),
            None => Ok(AnyCollator::pinyin()),
        },
        CliSortMode::Jyutping => match override_data {
            Some(OverrideData::Jyutping(o)) => AnyCollator::jyutping_with_override(o),
            Some(OverrideData::Pinyin(_)) => Err(reject_table_kind("jyutping")),
            None => Ok(AnyCollator::jyutping()),
        },
        CliSortMode::Strokes => {
            if override_data.is_some() {
                return Err(reject_override("strokes"));
            }
            Ok(AnyCollator::strokes())
        },
        CliSortMode::Zhuyin => {
            if override_data.is_some() {
                return Err(reject_override("zhuyin"));
            }
            Ok(AnyCollator::zhuyin())
        },
        CliSortMode::Radical => {
            if override_data.is_some() {
                return Err(reject_override("radical"));
            }
            Ok(AnyCollator::radical())
        },
    }
}

impl CliArgs {
    /// Whether any file or text input was given.
    pub fn has_input(&self) -> (r: bool)
        ensures
            r == (self.input_files@.len() > 0 || self.input_texts@.len() > 0),
    {
        self.input_files.len() > 0 || self.input_texts.len() > 0
    }

    /// The run configuration and output path the options ask for, with
    /// `override_data` the override table read from `config_path` (with the
    /// schema [`override_schema`] gives for the scheme), if one was given. Fails when the collator cannot be built (first) or the
    /// configuration does not validate.
    pub fn into_runtime_parts(self, override_data: Option<OverrideData>) -> (r: Result<(RuntimeConfig, Option<PathBuf>)>)
        ensures
            r is Ok <==> collator_buildable(self.sort_by, override_data) && config_problem(
                cli_input(self.input_files, self.input_texts),
                cli_format(self),
            ) is None,
            r matches Ok(parts) ==> {
                let (c, output) = parts;
                &&& c.input == cli_input(self.input_files, self.input_texts)
                &&& c.format == cli_format(self)
                &&& collator_fits(c.collator, self.sort_by, override_data)
                &&& c.unique == self.unique
                &&& c.reverse == self.reverse
                &&& c.header == (HeaderSpec { lines: 0, keep: false })
                &&& output == self.output_path
            },
            r matches Err(e) ==> if collator_buildable(self.sort_by, override_data) {
                e matches HanziSortError::InvalidArgument(m) && config_problem(
                    cli_input(self.input_files, self.input_texts),
                    cli_format(self),
                ) == Some(m@)
            } else {
                collator_result(self.sort_by, override_data, Err(e))
            },
    {
        let ghost args = self;
        let input = if self.input_files.len() > 0 {
            InputSource::Files(self.input_files)
        } else if self.input_texts.len() > 0 {
            InputSource::Text(self.input_texts)
        } else {
            InputSource::Stdin
        };
        let defaults = FormatConfig::default();
        let blank_per = match self.blank_per {
            None => defaults.blank_per,
            Some(n) => if n > 0 {
                Some(n)
            } else {
                None
            },
        };
        let separator = match self.separator {
            Some(c) => c,
            None => defaults.separator,
        };
        let line_ending = match self.line_ending {
            Some(c) => c,
            None => defaults.line_ending,
        };
        let format = FormatConfig {
            columns_per_row: self.columns_per_row,
            blank_per,
            entry_width: self.entry_width,
            align: Align::from(self.align),
            padding_char: self.padding_char,
            separator,
            line_ending,
        };
        assert(format == cli_format(args));
        let collator = build_collator(self.sort_by, override_data)?;
        let config = RuntimeConfig::new(input, format, collator)?.with_unique(self.unique).with_reverse(
            self.reverse,
        );
        Ok((config, self.output_path))
    }
}

} // verus!
