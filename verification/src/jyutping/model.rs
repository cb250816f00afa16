//! The public record of a character's Jyutping readings.
use vstd::prelude::*;

use crate::text::views;

verus! {

/// The Jyutping readings of one character, most common first.
#[derive(Debug, Clone, PartialEq, Eq)]
pub struct JyutpingRecord {
    pub jyutping: Vec<String>,
    pub character: char,
}

impl JyutpingRecord {
    /// The record as plain values: the character and its readings.
    pub open spec fn view_parts(&self) -> (char, Seq<Seq<char>>) {
        (self.character, views(self.jyutping@))
    }

    /// The first (most common) reading, if there is one.
    pub fn primary_jyutping(&self) -> (r: Option<&str>)
        ensures
            r is None <==> self.jyutping@.len() == 0,
            r matches Some(s) ==> s@ == self.jyutping@[0]@,
    {
        if self.jyutping.len() == 0 {
            None
        } else {
            Some(self.jyutping[0].as_str())
        }
    }
}

} // verus!
