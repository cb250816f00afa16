//! What a run needs: where the input comes from, how to format the output
//! and which collator sorts it.
use std::path::PathBuf;
use vstd::prelude::*;

use crate::collator::AnyCollator;
use crate::error::{HanziSortError, Result};
use crate::format::{char_display_width, format_problem, FormatConfig};

verus! {

/// Where the records to sort come from.
#[derive(Debug, Clone, PartialEq, Eq)]
pub enum InputSource {
    /// Files read line by line; `-` stands for standard input.
    Files(Vec<PathBuf>),
    /// Inline text items.
    Text(Vec<String>),
    /// Standard input, read line by line.
    Stdin,
}

impl InputSource {
    /// Whether the source is known up front to carry no input: an empty
    /// file list or an empty text list. Standard input counts as non-empty
    /// here; whether it holds lines shows only when it is read.
    pub open spec fn spec_is_empty(&self) -> bool {
        match self {
            InputSource::Files(paths) => paths@.len() == 0,
            InputSource::Text(items) => items@.len() == 0,
            InputSource::Stdin => false,
        }
    }

    /// Whether the source is known up front to carry no input.
    pub fn is_empty(&self) -> (r: bool)
        ensures
            r == self.spec_is_empty(),
    {
        match self {
            InputSource::Files(paths) => paths.len() == 0,
            InputSource::Text(items) => items.len() == 0,
            InputSource::Stdin => false,
        }
    }
}

/// How to treat the leading lines of each file or standard-input source:
/// the first `lines` lines are the header (`0`: no header); with `keep`
/// they are pinned, unsorted, above the output, else dropped.
#[derive(Debug, Clone, Copy, PartialEq, Eq, Default)]
pub struct HeaderSpec {
    pub lines: usize,
    pub keep: bool,
}

/// Everything a run needs: input, output layout and collator.
#[derive(Debug, Clone)]
pub struct RuntimeConfig {
    pub input: InputSource,
    pub format: FormatConfig,
    pub collator: AnyCollator,
    /// Remove adjacent duplicates after sorting (like `sort -u`).
    pub unique: bool,
    /// Reverse the sorted (and possibly de-duplicated) output.
    pub reverse: bool,
    /// Per-source header handling applied before sorting.
    pub header: HeaderSpec,
}

/// Why a configuration cannot be built, if it cannot.
pub open spec fn config_problem(input: InputSource, format: FormatConfig) -> Option<Seq<char>> {
    if input.spec_is_empty() {
        Some("at least one input file or text item is required"@)
    } else {
        format_problem(format, char_display_width(format.padding_char))
    }
}

impl RuntimeConfig {
    /// A configuration with no de-duplication, no reversal and no header
    /// handling. Fails with `InvalidArgument` when the input is known to be
    /// empty or the layout does not validate.
    pub fn new(input: InputSource, format: FormatConfig, collator: AnyCollator) -> (r: Result<Self>)
        ensures
            r is Ok <==> config_problem(input, format) is None,
            r matches Ok(c) ==> c.input == input && c.format == format && c.collator == collator
                && !c.unique && !c.reverse && c.header == (HeaderSpec { lines: 0, keep: false }),
            r matches Err(e) ==> e matches HanziSortError::InvalidArgument(m) && config_problem(
                input,
                format,
            ) == Some(m@),
    {
        if input.is_empty() {
            let m = "at least one input file or text item is required".to_owned();
            return Err(HanziSortError::InvalidArgument(m));
        }
        let format = format.validate()?;
        Ok(RuntimeConfig {
            input,
            format,
            collator,
            unique: false,
            reverse: false,
            header: HeaderSpec { lines: 0, keep: false },
        })
    }

    /// The same configuration with the `unique` flag set to `unique`.
    pub fn with_unique(self, unique: bool) -> (c: Self)
        ensures
            c == (RuntimeConfig { unique, ..self }),
    {
        let mut c = self;
        c.unique = unique;
        c
    }

    /// The same configuration with the `reverse` flag set to `reverse`.
    pub fn with_reverse(self, reverse: bool) -> (c: Self)
        ensures
            c == (RuntimeConfig { reverse, ..self }),
    {
        let mut c = self;
        c.reverse = reverse;
        c
    }

    /// The same configuration with header handling `header`.
    pub fn with_header(self, header: HeaderSpec) -> (c: Self)
        ensures
            c == (RuntimeConfig { header, ..self }),
    {
        let mut c = self;
        c.header = header;
        c
    }
}

} // verus!
