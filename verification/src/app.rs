//! One run over records already read: sort, de-duplicate, reverse, lay out
//! and put the retained header lines on top.
use vstd::prelude::*;

use crate::collator::{equal_entries_adjacent, AnyCollator};
use crate::config::RuntimeConfig;
use crate::format::{formatted_items, format_items, FormatConfig};
use crate::input::Input;
use crate::sorting::{lemma_sorted_permutation_exists, sorted_permutation, stable_sort_spec};
use crate::text::{join, join_strings, push_char, push_str, views};

verus! {

/// `items` with each run of adjacent equal entries kept once.
pub open spec fn dedup_adjacent(items: Seq<String>) -> Seq<String>
    decreases items.len(),
{
    if items.len() <= 1 {
        items
    } else {
        let rest = dedup_adjacent(items.drop_last());
        if items.last()@ == items[items.len() - 2]@ {
            rest
        } else {
            rest.push(items.last())
        }
    }
}

/// The body as it is laid out: sorted, then de-duplicated and reversed as
/// asked.
pub open spec fn arranged_body(collator: AnyCollator, unique: bool, reverse: bool, body: Seq<String>) -> Seq<String> {
    let sorted = stable_sort_spec(body, collator.keys_for(body));
    let kept = if unique {
        dedup_adjacent(sorted)
    } else {
        sorted
    };
    if reverse {
        kept.reverse()
    } else {
        kept
    }
}

/// The whole output: the laid-out body, below the retained header lines
/// joined by the line ending when there are any.
pub open spec fn rendered(
    format: FormatConfig,
    headers: Seq<Seq<char>>,
    arranged: Seq<Seq<char>>,
) -> Seq<char> {
    let formatted = formatted_items(arranged, format);
    if headers.len() == 0 {
        formatted
    } else {
        let header_block = join(headers, seq![format.line_ending]);
        if formatted.len() == 0 {
            header_block
        } else {
            header_block + seq![format.line_ending] + formatted
        }
    }
}

/// Reversing is applied last and on its own: with `reverse` set, the laid-out
/// body is the body laid out without `reverse`, read backwards, whether or
/// not `unique` is set. Without either flag the laid-out body is the sorted
/// body, so with `reverse` alone it is the sorted body read backwards.
pub proof fn lemma_reverse_reads_backwards(collator: AnyCollator, unique: bool, body: Seq<String>)
    ensures
        arranged_body(collator, unique, true, body) == arranged_body(collator, unique, false, body).reverse(),
        arranged_body(collator, false, false, body) == stable_sort_spec(body, collator.keys_for(body)),
        arranged_body(collator, false, true, body) == stable_sort_spec(body, collator.keys_for(body)).reverse(),
        forall|i: int|
            0 <= i < arranged_body(collator, unique, true, body).len() ==> #[trigger] arranged_body(
                collator,
                unique,
                true,
                body,
            )[i] == arranged_body(collator, unique, false, body)[arranged_body(collator, unique, false, body).len()
                - 1 - i],
{
}

/// Each entry's sort key under `collator` keeps all of its characters, one
/// token per character (phrase data with a value for every character, or
/// per-character data).
pub open spec fn keys_keep_characters(collator: AnyCollator, items: Seq<String>) -> bool {
    forall|i: int| 0 <= i < items.len() ==> #[trigger] collator.key_for(items[i]@).len() == items[i]@.len()
}

/// Where equal entries stand together, removing adjacent duplicates leaves
/// each distinct entry exactly once.
proof fn lemma_dedup_runs(items: Seq<String>)
    requires
        equal_entries_adjacent(items),
    ensures
        views(dedup_adjacent(items)).no_duplicates(),
        forall|v: Seq<char>| views(dedup_adjacent(items)).contains(v) <==> views(items).contains(v),
    decreases items.len(),
{
    let n = items.len();
    if n <= 1 {
        return;
    }
    let init = items.drop_last();
    assert forall|a: int, c: int, b: int|
        #![trigger init[a], init[c], init[b]]
        0 <= a < c < b < init.len() && init[a]@ == init[b]@ implies init[c]@ == init[a]@ by {
        assert(items[a] == init[a] && items[b] == init[b] && items[c] == init[c]);
    }
    lemma_dedup_runs(init);
    let rest = dedup_adjacent(init);
    let last = items.last();
    assert(views(items) =~= views(init).push(last@));
    if last@ == items[n - 2]@ {
        assert(dedup_adjacent(items) == rest);
        assert forall|v: Seq<char>| views(items).contains(v) implies views(init).contains(v) by {
            let i = choose|i: int| 0 <= i < n && views(items)[i] == v;
            if i == n - 1 {
                assert(views(init)[n - 2] == v);
            } else {
                assert(views(init)[i] == v);
            }
        }
        assert forall|v: Seq<char>| views(init).contains(v) implies views(items).contains(v) by {
            let i = choose|i: int| 0 <= i < n - 1 && views(init)[i] == v;
            assert(views(items)[i] == v);
        }
    } else {
        let d = rest.push(last);
        assert(dedup_adjacent(items) == d);
        assert(views(d) =~= views(rest).push(last@));
        assert(!views(init).contains(last@)) by {
            if views(init).contains(last@) {
                let k = choose|k: int| 0 <= k < n - 1 && views(init)[k] == last@;
                assert(items[k]@ == last@);
                assert(k < n - 2);
                assert(items[n - 2]@ == items[k]@);
            }
        }
        assert(!views(rest).contains(last@));
        assert forall|i: int, j: int| 0 <= i < views(d).len() && 0 <= j < views(d).len() && i != j implies views(
            d,
        )[i] != views(d)[j] by {
            if i == views(rest).len() {
                assert(views(rest)[j] == views(d)[j]);
            } else if j == views(rest).len() {
                assert(views(rest)[i] == views(d)[i]);
            }
        }
        assert forall|v: Seq<char>| views(d).contains(v) <==> views(items).contains(v) by {
            if views(d).contains(v) {
                let i = choose|i: int| 0 <= i < views(d).len() && views(d)[i] == v;
                if i < views(rest).len() {
                    assert(views(rest)[i] == v);
                    assert(views(rest).contains(v));
                    assert(views(init).contains(v));
                    let j = choose|j: int| 0 <= j < init.len() && views(init)[j] == v;
                    assert(views(items)[j] == v);
                } else {
                    assert(views(items)[n - 1] == v);
                }
            }
            if views(items).contains(v) {
                let i = choose|i: int| 0 <= i < n && views(items)[i] == v;
                if i < n - 1 {
                    assert(views(init)[i] == v);
                    assert(views(init).contains(v));
                    let j = choose|j: int| 0 <= j < rest.len() && views(rest)[j] == v;
                    assert(views(d)[j] == v);
                } else {
                    assert(views(d)[views(rest).len() as int] == v);
                }
            }
        }
    }
}

/// Reversing keeps which entries occur and that none occurs twice.
proof fn lemma_reverse_views(items: Seq<String>)
    ensures
        views(items).no_duplicates() ==> views(items.reverse()).no_duplicates(),
        forall|v: Seq<char>| views(items.reverse()).contains(v) <==> views(items).contains(v),
{
    let n = items.len();
    let r = items.reverse();
    assert forall|i: int| 0 <= i < n implies #[trigger] views(r)[i] == views(items)[n - 1 - i] by {}
    if views(items).no_duplicates() {
        assert forall|i: int, j: int| 0 <= i < n && 0 <= j < n && i != j implies views(r)[i] != views(r)[j] by {
            assert(views(r)[i] == views(items)[n - 1 - i]);
            assert(views(r)[j] == views(items)[n - 1 - j]);
        }
    }
    assert forall|v: Seq<char>| views(r).contains(v) <==> views(items).contains(v) by {
        if views(r).contains(v) {
            let i = choose|i: int| 0 <= i < n && views(r)[i] == v;
            assert(views(items)[n - 1 - i] == v);
        }
        if views(items).contains(v) {
            let i = choose|i: int| 0 <= i < n && views(items)[i] == v;
            assert(views(r)[n - 1 - i] == v);
        }
    }
}

/// Sorting keeps which entries occur.
proof fn lemma_sorted_views(collator: AnyCollator, body: Seq<String>)
    requires
        body.len() <= usize::MAX,
    ensures
        forall|v: Seq<char>|
            views(stable_sort_spec(body, collator.keys_for(body))).contains(v) <==> views(body).contains(v),
{
    let keys = collator.keys_for(body);
    assert(keys.len() == body.len());
    lemma_sorted_permutation_exists(keys);
    let p = sorted_permutation(keys);
    let y = stable_sort_spec(body, keys);
    assert forall|v: Seq<char>| views(y).contains(v) <==> views(body).contains(v) by {
        if views(y).contains(v) {
            let k = choose|k: int| 0 <= k < y.len() && views(y)[k] == v;
            assert(views(body)[p[k] as int] == v);
        }
        if views(body).contains(v) {
            let x = choose|x: int| 0 <= x < body.len() && views(body)[x] == v;
            assert(p.contains(x as usize));
            let k = choose|k: int| 0 <= k < p.len() && p[k] == x as usize;
            assert(views(y)[k] == v);
        }
    }
}

/// With `unique`, the laid-out body lists every distinct entry of the input
/// exactly once, reversed or not: the sort is stable and total, so removing
/// adjacent duplicates removes all of them. This holds wherever each
/// entry's sort key keeps all of its characters.
pub proof fn lemma_unique_body_distinct(collator: AnyCollator, reverse: bool, body: Seq<String>)
    requires
        body.len() <= usize::MAX,
        keys_keep_characters(collator, body),
    ensures
        views(arranged_body(collator, true, reverse, body)).no_duplicates(),
        forall|v: Seq<char>| views(arranged_body(collator, true, reverse, body)).contains(v) <==> views(body).contains(v),
{
    let sorted = stable_sort_spec(body, collator.keys_for(body));
    collator.lemma_sorted_runs(body);
    lemma_sorted_views(collator, body);
    lemma_dedup_runs(sorted);
    lemma_reverse_views(dedup_adjacent(sorted));
}

/// Removes adjacent duplicates (`Vec::dedup`).
fn dedup_strings(items: Vec<String>) -> (out: Vec<String>)
    ensures
        out@ == dedup_adjacent(items@),
{
    let mut out: Vec<String> = Vec::new();
    let mut i: usize = 0;
    while i < items.len()
        invariant
            i <= items.len(),
            out@ == dedup_adjacent(items@.take(i as int)),
            i > 0 ==> out@.len() > 0 && out@.last()@ == items@[i - 1]@,
        decreases items.len() - i,
    {
        let ghost prefix = items@.take(i + 1);
        assert(prefix.drop_last() =~= items@.take(i as int));
        if i == 0 {
            out.push(items[0].clone());
            assert(out@ =~= prefix);
        } else {
            proof {
                lemma_dedup_last(items@.take(i as int));
            }
            if items[i] != items[i - 1] {
                out.push(items[i].clone());
            }
        }
        i += 1;
    }
    assert(items@.take(i as int) =~= items@);
    out
}

proof fn lemma_dedup_last(items: Seq<String>)
    requires
        items.len() > 0,
    ensures
        dedup_adjacent(items).len() > 0,
        dedup_adjacent(items).last()@ == items.last()@,
    decreases items.len(),
{
    if items.len() > 1 {
        lemma_dedup_last(items.drop_last());
        assert(items.drop_last().last() == items[items.len() - 2]);
    }
}

/// The entries of `items` in reverse order (`Vec::reverse`).
fn reverse_strings(items: Vec<String>) -> (out: Vec<String>)
    ensures
        out@ == items@.reverse(),
{
    let n = items.len();
    let mut out: Vec<String> = Vec::new();
    let mut i: usize = 0;
    while i < n
        invariant
            i <= n,
            n == items@.len(),
            out@.len() == i,
            forall|k: int| 0 <= k < i ==> #[trigger] out@[k] == items@[n - 1 - k],
        decreases n - i,
    {
        out.push(items[n - 1 - i].clone());
        i += 1;
    }
    assert(out@ =~= items@.reverse());
    out
}

/// Sorts the body of `input` under `config`, de-duplicates and reverses it
/// as asked, lays it out, and puts the retained header lines on top.
pub fn render(config: RuntimeConfig, input: Input) -> (s: String)
    requires
        input.body@.len() > 0 ==> config.format.columns_per_row > 0,
    ensures
        s@ == rendered(
            config.format,
            views(input.headers@),
            views(arranged_body(config.collator, config.unique, config.reverse, input.body@)),
        ),
        config.unique && keys_keep_characters(config.collator, input.body@) ==> views(
            arranged_body(config.collator, true, config.reverse, input.body@),
        ).no_duplicates(),
        config.unique && keys_keep_characters(config.collator, input.body@) ==> forall|v: Seq<char>|
            views(arranged_body(config.collator, true, config.reverse, input.body@)).contains(v)
                <==> views(input.body@).contains(v),
{
    let Input { headers, body } = input;
    let ghost items = body@;
    // The length of a vector fits in `usize`, which the sort laws assume.
    let body_len = body.len();
    let ghost keys = config.collator.keys_for(items);
    proof {
        assert(keys.len() == items.len());
        lemma_sorted_permutation_exists(keys);
    }
    proof {
        if config.unique && keys_keep_characters(config.collator, items) {
            lemma_unique_body_distinct(config.collator, config.reverse, items);
        }
    }
    let mut arranged = config.collator.sort(body);
    assert(arranged@.len() == items.len());
    if config.unique {
        proof {
            if arranged@.len() > 0 {
                lemma_dedup_last(arranged@);
            }
        }
        arranged = dedup_strings(arranged);
    }
    if config.reverse {
        arranged = reverse_strings(arranged);
    }
    assert(arranged@ == arranged_body(config.collator, config.unique, config.reverse, items));
    let formatted = format_items(arranged.as_slice(), &config.format);
    if headers.len() == 0 {
        return formatted;
    }
    let mut line_ending = String::new();
    push_char(&mut line_ending, config.format.line_ending);
    let header_block = join_strings(headers.as_slice(), line_ending.as_str());
    if formatted.as_str().is_empty() {
        return header_block;
    }
    let mut out = header_block;
    push_str(&mut out, line_ending.as_str());
    push_str(&mut out, formatted.as_str());
    out
}

} // verus!
