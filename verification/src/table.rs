//! Lookup in the bundled per-character data tables.
use vstd::prelude::*;

verus! {

/// The value of the first entry of `table` whose key is `c`.
pub open spec fn find_entry<K, V>(table: Seq<(K, V)>, c: K) -> Option<V>
    decreases table.len(),
{
    if table.len() == 0 {
        None
    } else if table[0].0 == c {
        Some(table[0].1)
    } else {
        find_entry(table.drop_first(), c)
    }
}

/// Looks `c` up in `table`.
pub fn lookup<V: Copy>(table: &[(char, V)], c: char) -> (r: Option<V>)
    ensures
        r == find_entry(table@, c),
{
    let mut i: usize = 0;
    assert(table@.skip(0) =~= table@);
    while i < table.len()
        invariant
            i <= table.len(),
            find_entry(table@, c) == find_entry(table@.skip(i as int), c),
        decreases table.len() - i,
    {
        assert(table@.skip(i as int)[0] == table@[i as int]);
        if table[i].0 == c {
            return Some(table[i].1);
        }
        assert(table@.skip(i as int).drop_first() =~= table@.skip(i + 1));
        i += 1;
    }
    None
}

/// A value found in `table` is the value of one of its entries.
pub proof fn lemma_find_entry_member<K, V>(table: Seq<(K, V)>, c: K)
    ensures
        find_entry(table, c) matches Some(v) ==> exists|i: int|
            0 <= i < table.len() && #[trigger] table[i] == (c, v),
    decreases table.len(),
{
    if table.len() > 0 && table[0].0 != c {
        lemma_find_entry_member(table.drop_first(), c);
        if let Some(v) = find_entry(table, c) {
            let i = choose|i: int| 0 <= i < table.len() - 1 && #[trigger] table.drop_first()[i] == (c, v);
            assert(table[i + 1] == (c, v));
        }
    } else if table.len() > 0 {
        assert(table[0] == (c, table[0].1));
    }
}

/// Looking up in a table whose values went through `f` finds the value
/// that looking up in the unmapped table finds, through `f`.
pub proof fn lemma_find_entry_map<K, V, W>(table: Seq<(K, V)>, key: K, f: spec_fn(V) -> W)
    ensures
        find_entry(table.map_values(|e: (K, V)| (e.0, f(e.1))), key) == match find_entry(
            table,
            key,
        ) {
            Some(v) => Some(f(v)),
            None => None,
        },
    decreases table.len(),
{
    let mapped = table.map_values(|e: (K, V)| (e.0, f(e.1)));
    if table.len() > 0 {
        assert(mapped[0] == (table[0].0, f(table[0].1)));
        lemma_find_entry_map(table.drop_first(), key, f);
        assert(mapped.drop_first() =~= table.drop_first().map_values(|e: (K, V)| (e.0, f(e.1))));
    }
}

} // verus!
