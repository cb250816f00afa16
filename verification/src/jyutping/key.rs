//! Packing of a Jyutping syllable into a `u128` sort key.
use vstd::prelude::*;
use vstd::string::{is_ascii, StringSliceAdditionalSpecFns};

use crate::pinyin::key::{
    encode_primary_pinyin_unchecked, lemma_packed_key_order, lex_less, packed_key, MAX_ENCODED_PINYIN_LEN,
};

verus! {

/// Why `jyutping` cannot be packed, if it cannot: it must be non-empty, at
/// most 16 bytes, ASCII, and end in a tone digit `1-6`.
pub open spec fn jyutping_problem(jyutping: &str) -> Option<Seq<char>> {
    if jyutping@.len() == 0 {
        Some("jyutping syllable is empty"@)
    } else if jyutping.spec_bytes().len() > 16 {
        Some("jyutping syllable exceeds 16 bytes"@)
    } else if !is_ascii(jyutping) {
        Some("jyutping syllable must be ASCII"@)
    } else if !(49 <= jyutping.spec_bytes().last() <= 54) {
        Some("jyutping syllable must end with a tone digit 1-6"@)
    } else {
        None
    }
}

/// What the checked encoder gives for `jyutping`: its key, or why it has
/// none.
pub open spec fn checked_jyutping(jyutping: &str) -> std::result::Result<u128, Seq<char>> {
    match jyutping_problem(jyutping) {
        Some(problem) => Err(problem),
        None => Ok(packed_key(jyutping.spec_bytes()) as u128),
    }
}

/// Packs a Jyutping syllable into a `u128` whose integer order is the
/// byte-wise lexicographic order of the syllable, after checking that it
/// is well-formed.
pub fn encode_primary_jyutping(jyutping: &str) -> (r: std::result::Result<u128, &'static str>)
    ensures
        match r {
            Ok(key) => checked_jyutping(jyutping) == Ok::<u128, Seq<char>>(key),
            Err(message) => checked_jyutping(jyutping) == Err::<u128, Seq<char>>(message@),
        },
{
    if jyutping.is_empty() {
        proof {
            reveal_strlit("jyutping syllable is empty");
        }
        return Err("jyutping syllable is empty");
    }
    let bytes = jyutping.as_bytes();
    if bytes.len() > MAX_ENCODED_PINYIN_LEN {
        proof {
            reveal_strlit("jyutping syllable exceeds 16 bytes");
        }
        return Err("jyutping syllable exceeds 16 bytes");
    }
    if !jyutping.is_ascii() {
        proof {
            reveal_strlit("jyutping syllable must be ASCII");
        }
        return Err("jyutping syllable must be ASCII");
    }
    proof {
        broadcast use vstd::string::is_ascii_spec_bytes;

        assert(bytes@.len() == jyutping@.len());
    }
    let last = bytes[bytes.len() - 1];
    if !(49u8 <= last && last <= 54u8) {
        proof {
            reveal_strlit("jyutping syllable must end with a tone digit 1-6");
        }
        return Err("jyutping syllable must end with a tone digit 1-6");
    }
    Ok(encode_primary_jyutping_unchecked(jyutping))
}

/// Packs a syllable that the caller knows is well-formed (non-empty,
/// ASCII, at most 16 bytes, ending in a tone digit `1-6`), as the bundled
/// table's syllables are.
pub fn encode_primary_jyutping_unchecked(jyutping: &str) -> (encoded: u128)
    requires
        jyutping_problem(jyutping) is None,
    ensures
        encoded == packed_key(jyutping.spec_bytes()),
{
    encode_primary_pinyin_unchecked(jyutping)
}

/// For a well-formed syllable, the checked encoder succeeds with exactly
/// the key that the unchecked encoder computes.
pub proof fn lemma_checked_matches_unchecked(jyutping: &str)
    requires
        jyutping_problem(jyutping) is None,
    ensures
        checked_jyutping(jyutping) == Ok::<u128, Seq<char>>(packed_key(jyutping.spec_bytes()) as u128),
{
}

/// The checked encoder keeps the order of syllables: of two well-formed
/// syllables, one key is below the other exactly when the first syllable
/// sorts byte-wise before the second, and the keys are equal exactly when
/// the syllables are.
pub proof fn lemma_jyutping_key_order(a: &str, b: &str)
    requires
        jyutping_problem(a) is None,
        jyutping_problem(b) is None,
    ensures
        checked_jyutping(a) matches Ok(ka) && checked_jyutping(b) matches Ok(kb) && (ka < kb
            <==> lex_less(a.spec_bytes(), b.spec_bytes())) && (ka == kb <==> a.spec_bytes()
            == b.spec_bytes()),
{
    lemma_packed_key_order(a.spec_bytes(), b.spec_bytes());
    crate::pinyin::key::lemma_packed_key_bound(a.spec_bytes());
    crate::pinyin::key::lemma_packed_key_bound(b.spec_bytes());
}

} // verus!
