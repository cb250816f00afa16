//! Pluggable sort strategies for character-level ordering.
//!
//! A [`Collator`] maps each input character to optional sort data. The
//! generic [`sort_strings_with`] derives a per-string [`SortKey`] from the
//! collator and sorts the inputs by key, with the input index as a
//! final tiebreak so that entries with equal keys keep their input order.
use smallvec::SmallVec;
use vstd::prelude::*;

use crate::order::key_order;
use crate::sorting::{
    key_views, lemma_sort_idempotent, lemma_sort_is_permutation, lemma_sorted_in_key_order,
    sort_key_indices, sorted_permutation, stable_order, stable_sort_spec,
};

use crate::error::Result;
use crate::jyutping::JyutpingCollator;
use crate::overrides::{JyutpingOverride, PinyinOverride};
use crate::pinyin::collator::PinyinCollator;
use crate::pinyin::key::packing_failure;
use crate::radical::RadicalCollator;
use crate::stroke::StrokesCollator;
use crate::text::chars_of;
use crate::zhuyin::ZhuyinCollator;

verus! {

/// Number of tokens a [`SortKey`] holds without a heap allocation.
pub const INLINE_KEY_LEN: usize = 8;

/// Whether a character has mapped data under a [`Collator`].
///
/// `Yes` is declared before `No` so that the derived order places mapped
/// characters before unmapped ones.
#[derive(Debug, Clone, Copy, PartialEq, Eq, PartialOrd, Ord, Hash)]
pub enum Mapped<T> {
    Yes(T),
    No,
}

/// One character's contribution to a sort key: the collator's data for it,
/// and the character itself as a deterministic tiebreak.
#[derive(Debug, Clone, Copy, PartialEq, Eq, PartialOrd, Ord, Hash)]
pub struct CharToken<T> {
    pub data: Mapped<T>,
    pub character: char,
}

/// Per-string sort key: the tokens of the string in order, kept inline
/// (without a heap allocation) for short inputs.
#[verifier::external_body]
pub struct SortKey {
    tokens: SmallVec<[CharToken<u128>; INLINE_KEY_LEN]>,
}

/// The tokens that a sort key holds, in order.
pub uninterp spec fn sort_key_tokens(key: SortKey) -> Seq<CharToken<u128>>;

/// Builds a sort key from a vector of tokens (`SmallVec::from_vec`): the key
/// holds exactly those tokens, in the same order.
#[verifier::external_body]
fn sort_key_from_vec(tokens: Vec<CharToken<u128>>) -> (key: SortKey)
    ensures
        sort_key_tokens(key) == tokens@,
{
    SortKey { tokens: SmallVec::from_vec(tokens) }
}

/// The tokens of a sort key as a slice (`SmallVec::as_slice`).
#[verifier::external_body]
pub(crate) fn sort_key_slice(key: &SortKey) -> (tokens: &[CharToken<u128>])
    ensures
        tokens@ == sort_key_tokens(*key),
{
    key.tokens.as_slice()
}

impl SortKey {
    /// The tokens of the key, in order.
    pub fn to_vec(&self) -> (tokens: Vec<CharToken<u128>>)
        ensures
            tokens@ == sort_key_tokens(*self),
    {
        vstd::slice::slice_to_vec(sort_key_slice(self))
    }
}

/// Data that a collator attaches to characters. Each value has a rank in
/// `u128`, and data sorts by rank.
pub trait SortData {
    /// The rank of the value; values sort as their ranks do.
    spec fn rank(&self) -> u128;

    /// The rank of the value.
    fn to_rank(&self) -> (r: u128)
        ensures
            r == self.rank(),
    ;
}

impl SortData for u8 {
    open spec fn rank(&self) -> u128 {
        *self as u128
    }

    fn to_rank(&self) -> (r: u128) {
        *self as u128
    }
}

impl SortData for u16 {
    open spec fn rank(&self) -> u128 {
        *self as u128
    }

    fn to_rank(&self) -> (r: u128) {
        *self as u128
    }
}

impl SortData for u32 {
    open spec fn rank(&self) -> u128 {
        *self as u128
    }

    fn to_rank(&self) -> (r: u128) {
        *self as u128
    }
}

impl SortData for u64 {
    open spec fn rank(&self) -> u128 {
        *self as u128
    }

    fn to_rank(&self) -> (r: u128) {
        *self as u128
    }
}

impl SortData for u128 {
    open spec fn rank(&self) -> u128 {
        *self
    }

    fn to_rank(&self) -> (r: u128) {
        *self
    }
}

/// A character-level sort strategy.
///
/// Implementors map each input character to optional data; the sort engine
/// handles tokenization, prefix comparison, length tiebreaks and stable
/// ordering of equal keys. `spec_data_for` and `spec_phrase_data` say what
/// an implementation answers, so the answers are a function of the input.
pub trait Collator {
    type Data: SortData;

    /// What `data_for` answers for `ch`. Unless an implementation says
    /// otherwise, no character is mapped.
    open spec fn spec_data_for(&self, ch: char) -> Option<Self::Data> {
        None
    }

    /// What `phrase_data` answers for `phrase`. Unless an implementation
    /// says otherwise, no phrase has data.
    open spec fn spec_phrase_data(&self, phrase: Seq<char>) -> Option<Seq<Self::Data>> {
        None
    }

    /// Mapped data for a single character, or `None` when the collator has
    /// no data for it. Unmapped characters sort after every mapped one and
    /// tiebreak on the character value.
    fn data_for(&self, ch: char) -> (r: Option<Self::Data>)
        ensures
            r == self.spec_data_for(ch),
    ;

    /// Phrase-level override: when `Some`, one value per character of
    /// `phrase`; when `None`, the collator falls back to per-character data.
    fn phrase_data(&self, phrase: &str) -> (r: Option<Vec<Self::Data>>)
        ensures
            match r {
                Some(v) => self.spec_phrase_data(phrase@) == Some(v@),
                None => self.spec_phrase_data(phrase@) is None,
            },
    ;
}

/// The token data for an optional collator value.
pub open spec fn mapped_rank<T: SortData>(d: Option<T>) -> Mapped<u128> {
    match d {
        Some(x) => Mapped::Yes(x.rank()),
        None => Mapped::No,
    }
}

/// The token for `character` with `data`.
pub open spec fn token_of(data: Mapped<u128>, character: char) -> CharToken<u128> {
    CharToken { data, character }
}

/// The sort key of `value` under `collator`: phrase data when the collator
/// has it for the whole value (paired with the characters up to the shorter
/// of the two), else per-character data.
pub open spec fn spec_sort_key<C: Collator>(collator: &C, value: Seq<char>) -> Seq<CharToken<u128>> {
    match collator.spec_phrase_data(value) {
        Some(phrase) => Seq::new(
            if phrase.len() < value.len() {
                phrase.len()
            } else {
                value.len()
            },
            |i: int| token_of(Mapped::Yes(phrase[i].rank()), value[i]),
        ),
        None => Seq::new(
            value.len(),
            |i: int| token_of(mapped_rank(collator.spec_data_for(value[i])), value[i]),
        ),
    }
}

/// Build the sort key for a single string under the given collator.
///
/// Applies [`Collator::phrase_data`] first; otherwise falls back to
/// [`Collator::data_for`] per character.
pub fn sort_key_of<C: Collator>(collator: &C, value: &str) -> (key: SortKey)
    ensures
        sort_key_tokens(key) == spec_sort_key(collator, value@),
{
    let chars = chars_of(value);
    let mut tokens: Vec<CharToken<u128>> = Vec::new();
    let ghost key = spec_sort_key(collator, value@);
    match collator.phrase_data(value) {
        Some(phrase) => {
            let n = if phrase.len() < chars.len() {
                phrase.len()
            } else {
                chars.len()
            };
            let mut i: usize = 0;
            assert(key.len() == n);
            while i < n
                invariant
                    i <= n,
                    n <= phrase.len(),
                    n <= chars.len(),
                    chars@ == value@,
                    collator.spec_phrase_data(value@) == Some(phrase@),
                    key == spec_sort_key(collator, value@),
                    key.len() == n,
                    tokens@ == key.take(i as int),
                decreases n - i,
            {
                let token = CharToken { data: Mapped::Yes(phrase[i].to_rank()), character: chars[i] };
                assert(key[i as int] == token);
                tokens.push(token);
                i += 1;
                assert(tokens@ =~= key.take(i as int));
            }
        },
        None => {
            let mut i: usize = 0;
            while i < chars.len()
                invariant
                    i <= chars.len(),
                    chars@ == value@,
                    collator.spec_phrase_data(value@) is None,
                    key == spec_sort_key(collator, value@),
                    tokens@ == key.take(i as int),
                decreases chars.len() - i,
            {
                let data = match collator.data_for(chars[i]) {
                    Some(d) => Mapped::Yes(d.to_rank()),
                    None => Mapped::No,
                };
                let token = CharToken { data, character: chars[i] };
                assert(key.len() == chars.len());
                assert(key[i as int] == token);
                tokens.push(token);
                i += 1;
                assert(tokens@ =~= key.take(i as int));
            }
        },
    }
    assert(tokens@ =~= key);
    sort_key_from_vec(tokens)
}

/// The sort keys of `items` under `collator`.
pub open spec fn keys_of<C: Collator>(collator: &C, items: Seq<String>) -> Seq<Seq<CharToken<u128>>> {
    items.map_values(|s: String| spec_sort_key(collator, s@))
}

/// The sort key of every input, in input order.
fn sort_keys_of<C: Collator>(collator: &C, input: &[String]) -> (keys: Vec<SortKey>)
    ensures
        key_views(keys@) == keys_of(collator, input@),
{
    let mut keys: Vec<SortKey> = Vec::new();
    let mut i: usize = 0;
    while i < input.len()
        invariant
            i <= input.len(),
            key_views(keys@) == keys_of(collator, input@).take(i as int),
        decreases input.len() - i,
    {
        let key = sort_key_of(collator, input[i].as_str());
        assert(sort_key_tokens(key) == keys_of(collator, input@)[i as int]);
        let ghost old_keys = keys@;
        keys.push(key);
        assert(key_views(keys@) =~= key_views(old_keys).push(sort_key_tokens(key)));
        assert(keys_of(collator, input@).take(i + 1) =~= keys_of(collator, input@).take(i as int).push(keys_of(collator, input@)[i as int]));
        i += 1;
        assert(key_views(keys@) =~= keys_of(collator, input@).take(i as int));
    }
    assert(keys_of(collator, input@).take(i as int) =~= keys_of(collator, input@));
    keys
}

/// The sort permutation of `input` under `collator`: `result[k]` is the
/// input index of the entry that sorts at position `k`. Entries are ordered
/// by sort key; entries with equal keys keep their input order.
pub fn sort_indices_with<C: Collator>(input: &[String], collator: &C) -> (order: Vec<usize>)
    ensures
        stable_order(keys_of(collator, input@), order@),
        order@ == sorted_permutation(keys_of(collator, input@)),
{
    let keys = sort_keys_of(collator, input);
    sort_key_indices(&keys)
}

/// Moves the entry at `i` out of `items`, leaving an empty string there.
fn take_at(items: &mut Vec<String>, i: usize) -> (taken: String)
    requires
        i < old(items).len(),
    ensures
        taken == old(items)@[i as int],
        final(items)@.len() == old(items)@.len(),
        forall|j: int| 0 <= j < old(items)@.len() && j != i ==> final(items)@[j] == old(items)@[j],
{
    let mut taken = String::new();
    std::mem::swap(&mut items[i], &mut taken);
    taken
}

/// Sort `input` under `collator`.
///
/// Entries are ordered by sort key; entries with equal keys keep their
/// input order.
pub fn sort_strings_with<C: Collator>(input: Vec<String>, collator: &C) -> (sorted: Vec<String>)
    ensures
        sorted@ == stable_sort_spec(input@, keys_of(collator, input@)),
        sorted@.to_multiset() == input@.to_multiset(),
        forall|a: int, b: int|
            0 <= a < b < sorted@.len() ==> key_order(
                spec_sort_key(collator, #[trigger] sorted@[a]@),
                spec_sort_key(collator, #[trigger] sorted@[b]@),
            ) <= 0,
{
    // The length of a vector fits in `usize`, which the laws below assume.
    let input_len = input.len();
    proof {
        lemma_sort_is_permutation(input@, keys_of(collator, input@));
        lemma_sorted_in_key_order(input@, |s: String| spec_sort_key(collator, s@));
        assert(keys_of(collator, input@) =~= input@.map_values(|s: String| spec_sort_key(collator, s@)));
    }
    let order = sort_indices_with(input.as_slice(), collator);
    let ghost initial = input@;
    let ghost keys = keys_of(collator, input@);
    let mut items = input;
    let mut sorted: Vec<String> = Vec::new();
    let mut k: usize = 0;
    while k < order.len()
        invariant
            stable_order(keys, order@),
            order@ == sorted_permutation(keys),
            keys.len() == initial.len(),
            items@.len() == initial.len(),
            k <= order.len(),
            sorted@.len() == k,
            forall|a: int| 0 <= a < k ==> #[trigger] sorted@[a] == initial[order@[a] as int],
            forall|j: int|
                0 <= j < initial.len() && !order@.take(k as int).contains(j as usize)
                    ==> #[trigger] items@[j] == initial[j],
        decreases order.len() - k,
    {
        let idx = order[k];
        assert(!order@.take(k as int).contains(idx)) by {
            if order@.take(k as int).contains(idx) {
                let a = choose|a: int| 0 <= a < k && order@.take(k as int)[a] == idx;
                assert(order@[a] == order@[k as int]);
            }
        }
        let s = take_at(&mut items, idx);
        sorted.push(s);
        k += 1;
        assert forall|j: int|
            0 <= j < initial.len() && !order@.take(k as int).contains(j as usize)
                implies #[trigger] items@[j] == initial[j] by {
            assert(order@.take(k as int)[k - 1] == idx);
            if j != idx {
                if order@.take(k - 1).contains(j as usize) {
                    let a = choose|a: int| 0 <= a < k - 1 && #[trigger] order@.take(k - 1)[a] == j as usize;
                    assert(order@.take(k as int)[a] == j as usize);
                }
            }
        }
    }
    assert(sorted@ =~= stable_sort_spec(initial, keys));
    sorted
}

/// Sorting is idempotent: sorting the sorted result again under the same
/// collator gives it back unchanged.
pub proof fn lemma_sort_strings_idempotent<C: Collator>(collator: &C, items: Seq<String>)
    requires
        items.len() <= usize::MAX,
    ensures
        stable_sort_spec(
            stable_sort_spec(items, keys_of(collator, items)),
            keys_of(collator, stable_sort_spec(items, keys_of(collator, items))),
        ) == stable_sort_spec(items, keys_of(collator, items)),
{
    let key = |s: String| spec_sort_key(collator, s@);
    lemma_sort_idempotent(items, key);
    assert(keys_of(collator, items) =~= items.map_values(key));
    let y = stable_sort_spec(items, keys_of(collator, items));
    assert(keys_of(collator, y) =~= y.map_values(key));
}

/// A key that holds as many tokens as its string has characters names that
/// string: each token carries the character at its place. Keys built from
/// per-character data always do; phrase data does when it has one value
/// per character.
pub proof fn lemma_full_keys_determine_strings<C: Collator>(collator: &C, s: Seq<char>, t: Seq<char>)
    requires
        spec_sort_key(collator, s).len() == s.len(),
        spec_sort_key(collator, t).len() == t.len(),
        spec_sort_key(collator, s) == spec_sort_key(collator, t),
    ensures
        s == t,
{
    let ks = spec_sort_key(collator, s);
    let kt = spec_sort_key(collator, t);
    assert forall|i: int| 0 <= i < s.len() implies s[i] == t[i] by {
        assert(ks[i].character == s[i]);
        assert(kt[i].character == t[i]);
    }
    assert(s =~= t);
}

/// Entries that are equal stand together: every entry between two equal
/// entries equals them too.
pub open spec fn equal_entries_adjacent(items: Seq<String>) -> bool {
    forall|a: int, c: int, b: int|
        #![trigger items[a], items[c], items[b]]
        0 <= a < c < b < items.len() && items[a]@ == items[b]@ ==> items[c]@ == items[a]@
}

/// In the sorted output, equal entries stand together: anything between two
/// equal entries equals them too, provided that on the input equal keys
/// mean equal strings (as they do when every key holds all the characters
/// of its string, see [`lemma_full_keys_determine_strings`]).
pub proof fn lemma_equal_entries_adjacent<C: Collator>(collator: &C, items: Seq<String>, a: int, b: int, c: int)
    requires
        items.len() <= usize::MAX,
        forall|i: int, j: int|
            0 <= i < items.len() && 0 <= j < items.len() && spec_sort_key(collator, #[trigger] items[i]@)
                == spec_sort_key(collator, #[trigger] items[j]@) ==> items[i]@ == items[j]@,
        0 <= a < c < b < items.len(),
        stable_sort_spec(items, keys_of(collator, items))[a]@ == stable_sort_spec(
            items,
            keys_of(collator, items),
        )[b]@,
    ensures
        stable_sort_spec(items, keys_of(collator, items))[c]@ == stable_sort_spec(
            items,
            keys_of(collator, items),
        )[a]@,
{
    let key = |s: String| spec_sort_key(collator, s@);
    assert(keys_of(collator, items) =~= items.map_values(key));
    let keys = keys_of(collator, items);
    lemma_sort_is_permutation(items, keys);
    lemma_sorted_in_key_order(items, key);
    crate::sorting::lemma_sorted_permutation_exists(keys);
    let p = sorted_permutation(keys);
    let y = stable_sort_spec(items, keys);
    assert(key_order(key(y[a]), key(y[c])) <= 0);
    assert(key_order(key(y[c]), key(y[b])) <= 0);
    assert(key(y[a]) == key(y[b]));
    crate::order::lemma_key_order_antisymmetric(key(y[a]), key(y[c]));
    crate::order::lemma_key_order_equal(key(y[a]), key(y[c]));
    assert(y[a] == items[p[a] as int]);
    assert(y[c] == items[p[c] as int]);
    assert(0 <= p[a] < items.len() && 0 <= p[c] < items.len());
}

/// When every key holds all the characters of its string, equal entries
/// stand together in the sorted output, so removing adjacent duplicates
/// removes every duplicate.
pub proof fn lemma_sorted_runs<C: Collator>(collator: &C, items: Seq<String>)
    requires
        items.len() <= usize::MAX,
        forall|i: int|
            0 <= i < items.len() ==> #[trigger] spec_sort_key(collator, items[i]@).len() == items[i]@.len(),
    ensures
        equal_entries_adjacent(stable_sort_spec(items, keys_of(collator, items))),
{
    let y = stable_sort_spec(items, keys_of(collator, items));
    lemma_sort_is_permutation(items, keys_of(collator, items));
    assert forall|i: int, j: int|
        0 <= i < items.len() && 0 <= j < items.len() && spec_sort_key(collator, #[trigger] items[i]@)
            == spec_sort_key(collator, #[trigger] items[j]@) implies items[i]@ == items[j]@ by {
        lemma_full_keys_determine_strings(collator, items[i]@, items[j]@);
    }
    assert forall|a: int, c: int, b: int|
        #![trigger y[a], y[c], y[b]]
        0 <= a < c < b < y.len() && y[a]@ == y[b]@ implies y[c]@ == y[a]@ by {
        lemma_equal_entries_adjacent(collator, items, a, b, c);
    }
}

/// Dispatch over the built-in collators, for choosing the sort scheme at
/// run time. Callers with a known collator type can call
/// [`sort_strings_with`] directly.
#[derive(Debug, Clone)]
pub enum AnyCollator {
    Pinyin(PinyinCollator),
    Strokes(StrokesCollator),
    Jyutping(JyutpingCollator),
    Zhuyin(ZhuyinCollator),
    Radical(RadicalCollator),
}

impl AnyCollator {
    /// The sort keys of `items` under the selected collator.
    pub open spec fn keys_for(&self, items: Seq<String>) -> Seq<Seq<CharToken<u128>>> {
        match self {
            AnyCollator::Pinyin(c) => keys_of(c, items),
            AnyCollator::Strokes(c) => keys_of(c, items),
            AnyCollator::Jyutping(c) => keys_of(c, items),
            AnyCollator::Zhuyin(c) => keys_of(c, items),
            AnyCollator::Radical(c) => keys_of(c, items),
        }
    }

    /// The sort key of `value` under the selected collator.
    pub open spec fn key_for(&self, value: Seq<char>) -> Seq<CharToken<u128>> {
        match self {
            AnyCollator::Pinyin(c) => spec_sort_key(c, value),
            AnyCollator::Strokes(c) => spec_sort_key(c, value),
            AnyCollator::Jyutping(c) => spec_sort_key(c, value),
            AnyCollator::Zhuyin(c) => spec_sort_key(c, value),
            AnyCollator::Radical(c) => spec_sort_key(c, value),
        }
    }

    /// The keys of a list of strings under the selected scheme are the keys
    /// of the selected collator, string by string: each scheme sorts by its
    /// own collator's keys.
    pub proof fn lemma_scheme_keys(&self, items: Seq<String>)
        ensures
            self.keys_for(items).len() == items.len(),
            forall|i: int| 0 <= i < items.len() ==> #[trigger] self.keys_for(items)[i] == self.key_for(items[i]@),
            self matches AnyCollator::Pinyin(c) ==> self.keys_for(items) == keys_of(c, items),
            self matches AnyCollator::Strokes(c) ==> self.keys_for(items) == keys_of(c, items),
            self matches AnyCollator::Jyutping(c) ==> self.keys_for(items) == keys_of(c, items),
            self matches AnyCollator::Zhuyin(c) ==> self.keys_for(items) == keys_of(c, items),
            self matches AnyCollator::Radical(c) ==> self.keys_for(items) == keys_of(c, items),
    {
    }

    /// When every key holds all the characters of its string, equal entries
    /// stand together in the sorted output.
    pub proof fn lemma_sorted_runs(&self, items: Seq<String>)
        requires
            items.len() <= usize::MAX,
            forall|i: int| 0 <= i < items.len() ==> #[trigger] self.key_for(items[i]@).len() == items[i]@.len(),
        ensures
            equal_entries_adjacent(stable_sort_spec(items, self.keys_for(items))),
    {
        match self {
            AnyCollator::Pinyin(c) => {
                assert forall|i: int| 0 <= i < items.len() implies #[trigger] spec_sort_key(c, items[i]@).len()
                    == items[i]@.len() by {
                    assert(self.key_for(items[i]@) == spec_sort_key(c, items[i]@));
                }
                lemma_sorted_runs(c, items);
            },
            AnyCollator::Strokes(c) => lemma_sorted_runs(c, items),
            AnyCollator::Jyutping(c) => {
                assert forall|i: int| 0 <= i < items.len() implies #[trigger] spec_sort_key(c, items[i]@).len()
                    == items[i]@.len() by {
                    assert(self.key_for(items[i]@) == spec_sort_key(c, items[i]@));
                }
                lemma_sorted_runs(c, items);
            },
            AnyCollator::Zhuyin(c) => lemma_sorted_runs(c, items),
            AnyCollator::Radical(c) => lemma_sorted_runs(c, items),
        }
    }

    /// The pinyin collator with no override data.
    pub fn pinyin() -> (c: Self)
        ensures
            c matches AnyCollator::Pinyin(p) && p.overrides() is None,
    {
        AnyCollator::Pinyin(PinyinCollator::new())
    }

    /// The pinyin collator that honors `overrides`; fails with
    /// `InvalidOverride` when a syllable cannot be packed into a sort key.
    pub fn pinyin_with_override(overrides: PinyinOverride) -> (r: Result<Self>)
        ensures
            r is Ok <==> packing_failure(overrides.char_view(), overrides.phrase_view()) is None,
            r matches Ok(c) ==> c matches AnyCollator::Pinyin(p) && p.overrides() == Some(overrides),
            r matches Err(e) ==> e matches crate::error::PinyinSortError::InvalidOverride(m)
                && packing_failure(overrides.char_view(), overrides.phrase_view()) == Some(m@),
    {
        Ok(AnyCollator::Pinyin(PinyinCollator::with_override(overrides)?))
    }

    /// The stroke-count collator.
    pub fn strokes() -> (c: Self)
        ensures
            c is Strokes,
    {
        AnyCollator::Strokes(StrokesCollator)
    }

    /// The Cantonese Jyutping collator with no override data.
    pub fn jyutping() -> (c: Self)
        ensures
            c matches AnyCollator::Jyutping(j) && j.overrides() is None,
    {
        AnyCollator::Jyutping(JyutpingCollator::new())
    }

    /// The Jyutping collator that honors `overrides`; fails with
    /// `InvalidOverride` when a syllable cannot be packed into a sort key.
    pub fn jyutping_with_override(overrides: JyutpingOverride) -> (r: Result<Self>)
        ensures
            r is Ok <==> packing_failure(overrides.char_view(), overrides.phrase_view()) is None,
            r matches Ok(c) ==> c matches AnyCollator::Jyutping(j) && j.overrides() == Some(overrides),
            r matches Err(e) ==> e matches crate::error::PinyinSortError::InvalidOverride(m)
                && packing_failure(overrides.char_view(), overrides.phrase_view()) == Some(m@),
    {
        Ok(AnyCollator::Jyutping(JyutpingCollator::with_override(overrides)?))
    }

    /// The Mandarin Zhuyin collator.
    pub fn zhuyin() -> (c: Self)
        ensures
            c is Zhuyin,
    {
        AnyCollator::Zhuyin(ZhuyinCollator::new())
    }

    /// The Kangxi radical collator.
    pub fn radical() -> (c: Self)
        ensures
            c is Radical,
    {
        AnyCollator::Radical(RadicalCollator::new())
    }

    /// Sorts `input` under the selected collator: by sort key, entries
    /// with equal keys in input order.
    pub fn sort(&self, input: Vec<String>) -> (sorted: Vec<String>)
        ensures
            sorted@ == stable_sort_spec(input@, self.keys_for(input@)),
            sorted@.to_multiset() == input@.to_multiset(),
            forall|a: int, b: int|
                0 <= a < b < sorted@.len() ==> key_order(
                    self.key_for(#[trigger] sorted@[a]@),
                    self.key_for(#[trigger] sorted@[b]@),
                ) <= 0,
    {
        match self {
            AnyCollator::Pinyin(c) => sort_strings_with(input, c),
            AnyCollator::Strokes(c) => sort_strings_with(input, c),
            AnyCollator::Jyutping(c) => sort_strings_with(input, c),
            AnyCollator::Zhuyin(c) => sort_strings_with(input, c),
            AnyCollator::Radical(c) => sort_strings_with(input, c),
        }
    }
}

} // verus!
