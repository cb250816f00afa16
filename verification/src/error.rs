//! The library's error type.
use std::path::PathBuf;
use vstd::prelude::*;

use crate::text::push_str;

verus! {

/// `std::io::Error`, carried opaquely inside I/O errors.
#[verifier::external_type_specification]
#[verifier::external_body]
pub struct ExIoError(std::io::Error);

/// `std::path::PathBuf`, carried opaquely as input and output paths.
#[verifier::external_type_specification]
#[verifier::external_body]
pub struct ExPathBuf(PathBuf);

/// `toml::de::Error`, carried opaquely inside override parse errors.
#[verifier::external_type_specification]
#[verifier::external_body]
pub struct ExTomlDeError(toml::de::Error);

/// What can go wrong while configuring or running a sort.
#[derive(Debug)]
pub enum PinyinSortError {
    /// A command-line or configuration value is out of range.
    InvalidArgument(String),
    /// Reading input, an override file or writing output failed.
    Io { context: String, source: std::io::Error },
    /// An override file is not valid TOML for the override schema.
    OverrideParse { path: PathBuf, source: toml::de::Error },
    /// An override table holds an entry that cannot be used.
    InvalidOverride(String),
}

/// The name under which the error type is exported.
pub type HanziSortError = PinyinSortError;

/// Result with the library's error.
pub type Result<T> = std::result::Result<T, PinyinSortError>;

/// The text of an I/O error (its `Display` output). Nothing is stated about
/// the text: it comes from the operating system.
#[verifier::external_body]
fn io_error_text(source: &std::io::Error) -> String {
    format!("{source}")
}

/// The text of a TOML parse error (its `Display` output). Nothing is stated
/// about the text: the `toml` crate words it.
#[verifier::external_body]
fn toml_error_text(source: &toml::de::Error) -> String {
    format!("{source}")
}

/// The path as text (`Path::display`). Nothing is stated about the text:
/// non-UTF-8 parts are replaced as the platform decides.
#[verifier::external_body]
fn path_text(path: &PathBuf) -> String {
    format!("{}", path.display())
}

impl PinyinSortError {
    /// An I/O error with a description of what was being done.
    pub fn io(context: String, source: std::io::Error) -> (e: Self)
        ensures
            e == (PinyinSortError::Io { context, source }),
    {
        PinyinSortError::Io { context, source }
    }

    /// The error message: the message itself for invalid arguments and
    /// overrides; the context, `": "` and the operating system's text for
    /// I/O errors; the path and the parser's text for override parse errors.
    pub fn to_string(&self) -> (s: String)
        ensures
            self matches PinyinSortError::InvalidArgument(m) ==> s@ == m@,
            self matches PinyinSortError::InvalidOverride(m) ==> s@ == m@,
            self matches PinyinSortError::Io { context, .. } ==> s@.len() >= context@.len() + 2
                && s@.take((context@.len() + 2) as int) == context@ + ": "@,
            self matches PinyinSortError::OverrideParse { .. } ==> s@.len() >= 32 && s@.take(32)
                == "failed to parse override config "@,
    {
        match self {
            PinyinSortError::InvalidArgument(message) => message.clone(),
            PinyinSortError::InvalidOverride(message) => message.clone(),
            PinyinSortError::Io { context, source } => {
                let mut s = context.clone();
                push_str(&mut s, ": ");
                proof {
                    reveal_strlit(": ");
                }
                let detail = io_error_text(source);
                let ghost head = s@;
                push_str(&mut s, detail.as_str());
                assert(s@.take((context@.len() + 2) as int) =~= head);
                s
            },
            PinyinSortError::OverrideParse { path, source } => {
                let mut s = String::new();
                push_str(&mut s, "failed to parse override config ");
                proof {
                    reveal_strlit("failed to parse override config ");
                }
                let ghost head = s@;
                let p = path_text(path);
                push_str(&mut s, p.as_str());
                push_str(&mut s, ": ");
                let detail = toml_error_text(source);
                push_str(&mut s, detail.as_str());
                assert(s@.take(32) =~= head);
                s
            },
        }
    }
}

} // verus!
