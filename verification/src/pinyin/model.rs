//! The public record of a character's readings.
use vstd::prelude::*;

use crate::text::views;

verus! {

/// The readings of one character, most common first.
#[derive(Debug, Clone, PartialEq, Eq)]
pub struct PinYinRecord {
    pub pinyin: Vec<String>,
    pub character: char,
}

impl PinYinRecord {
    /// The record as plain values: the character and its readings.
    pub open spec fn view_parts(&self) -> (char, Seq<Seq<char>>) {
        (self.character, views(self.pinyin@))
    }

    /// The first (most common) reading, if there is one.
    pub fn primary_pinyin(&self) -> (r: Option<&str>)
        ensures
            r is None <==> self.pinyin@.len() == 0,
            r matches Some(s) ==> s@ == self.pinyin@[0]@,
    {
        if self.pinyin.len() == 0 {
            None
        } else {
            Some(self.pinyin[0].as_str())
        }
    }
}

} // verus!
