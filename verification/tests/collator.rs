use hanzi_sort::{
    sort_indices_with, sort_key_of, sort_strings_with, AnyCollator, CharToken, Collator, Mapped,
};

/// Maps every ASCII letter to its lowercase byte and leaves other
/// characters unmapped.
struct AsciiLetterCollator;

impl Collator for AsciiLetterCollator {
    type Data = u8;

    fn data_for(&self, ch: char) -> Option<u8> {
        if ch.is_ascii_alphabetic() {
            Some(ch.to_ascii_lowercase() as u8)
        } else {
            None
        }
    }

    fn phrase_data(&self, _phrase: &str) -> Option<Vec<u8>> {
        None
    }
}

#[test]
fn mapped_orders_yes_before_no() {
    assert!(Mapped::Yes(0u32) < Mapped::No);
    assert!(Mapped::Yes(0u32) < Mapped::Yes(1u32));
}

#[test]
fn sort_strings_with_uses_collator_data_then_character_tiebreak() {
    let sorted = sort_strings_with(
        vec!["banana".into(), "Apple".into(), "apple".into()],
        &AsciiLetterCollator,
    );
    assert_eq!(sorted, vec!["Apple", "apple", "banana"]);
}

#[test]
fn sort_strings_with_places_unmapped_characters_after_mapped_ones() {
    let sorted = sort_strings_with(
        vec!["123".into(), "abc".into(), "1".into()],
        &AsciiLetterCollator,
    );
    assert_eq!(sorted, vec!["abc", "1", "123"]);
}

#[test]
fn sort_strings_with_is_stable_for_duplicate_inputs() {
    let input: Vec<String> = vec!["alpha".into(), "alpha".into(), "alpha".into()];
    let sorted = sort_strings_with(input.clone(), &AsciiLetterCollator);
    assert_eq!(sorted, input);
}

struct PhraseOnly;

impl Collator for PhraseOnly {
    type Data = u8;

    fn data_for(&self, _: char) -> Option<u8> {
        None
    }

    fn phrase_data(&self, phrase: &str) -> Option<Vec<u8>> {
        if phrase == "z-first" {
            Some(vec![0])
        } else {
            None
        }
    }
}

#[test]
fn sort_strings_with_uses_phrase_data_when_provided() {
    let sorted = sort_strings_with(vec!["a-default".into(), "z-first".into()], &PhraseOnly);
    assert_eq!(sorted, vec!["z-first", "a-default"]);
}

#[test]
fn sort_key_of_pairs_each_character_with_its_data() {
    let key = sort_key_of(&AsciiLetterCollator, "aB1");
    assert_eq!(
        key.to_vec(),
        vec![
            CharToken { data: Mapped::Yes(97u128), character: 'a' },
            CharToken { data: Mapped::Yes(98u128), character: 'B' },
            CharToken { data: Mapped::No, character: '1' },
        ]
    );
    let phrase = sort_key_of(&PhraseOnly, "z-first");
    assert_eq!(
        phrase.to_vec(),
        vec![CharToken { data: Mapped::Yes(0u128), character: 'z' }]
    );
}

#[test]
fn sort_indices_with_gives_the_stable_permutation() {
    let input: Vec<String> = vec!["b".into(), "a".into(), "b".into(), "A".into()];
    assert_eq!(sort_indices_with(&input, &AsciiLetterCollator), vec![3, 1, 0, 2]);
    assert_eq!(sort_indices_with(&[], &AsciiLetterCollator), Vec::<usize>::new());
}

#[test]
fn shorter_prefix_sorts_first() {
    let sorted = AnyCollator::pinyin().sort(vec!["张三丰".to_string(), "张三".to_string()]);
    assert_eq!(sorted, vec!["张三", "张三丰"]);
}

#[test]
fn sorting_twice_gives_the_same_order() {
    let input: Vec<String> = vec!["banana".into(), "Apple".into(), "1".into(), "apple".into()];
    let once = sort_strings_with(input, &AsciiLetterCollator);
    let twice = sort_strings_with(once.clone(), &AsciiLetterCollator);
    assert_eq!(once, twice);
}

#[test]
fn sorting_keeps_every_entry() {
    let input: Vec<String> = vec!["b".into(), "a".into(), "b".into(), "c".into()];
    let mut sorted = sort_strings_with(input.clone(), &AsciiLetterCollator);
    let mut expected = input;
    sorted.sort();
    expected.sort();
    assert_eq!(sorted, expected);
}
