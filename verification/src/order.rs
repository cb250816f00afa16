//! The order on sort keys: token by token, mapped data before unmapped,
//! data by value, then the character itself; a key that is a prefix of
//! another sorts first.
use vstd::prelude::*;

use crate::collator::{CharToken, Mapped};

verus! {

/// Three-way order on token data as an integer (`-1`, `0`, `1`): mapped
/// data sorts before unmapped data, mapped data by value.
pub open spec fn data_order(a: Mapped<u128>, b: Mapped<u128>) -> int {
    match (a, b) {
        (Mapped::Yes(x), Mapped::Yes(y)) => if x < y {
            -1
        } else if x == y {
            0
        } else {
            1
        },
        (Mapped::Yes(_), Mapped::No) => -1,
        (Mapped::No, Mapped::Yes(_)) => 1,
        (Mapped::No, Mapped::No) => 0,
    }
}

/// Three-way order on tokens: by data, then by character.
pub open spec fn token_order(a: CharToken<u128>, b: CharToken<u128>) -> int {
    let d = data_order(a.data, b.data);
    if d != 0 {
        d
    } else if a.character < b.character {
        -1
    } else if a.character == b.character {
        0
    } else {
        1
    }
}

/// Three-way lexicographic order on keys; a proper prefix sorts first.
pub open spec fn key_order(a: Seq<CharToken<u128>>, b: Seq<CharToken<u128>>) -> int
    decreases a.len(),
{
    if a.len() == 0 {
        if b.len() == 0 {
            0
        } else {
            -1
        }
    } else if b.len() == 0 {
        1
    } else {
        let t = token_order(a[0], b[0]);
        if t != 0 {
            t
        } else {
            key_order(a.drop_first(), b.drop_first())
        }
    }
}

proof fn lemma_token_order_facts(a: CharToken<u128>, b: CharToken<u128>, c: CharToken<u128>)
    ensures
        -1 <= token_order(a, b) <= 1,
        token_order(a, b) == -token_order(b, a),
        token_order(a, b) == 0 <==> a == b,
        token_order(a, b) <= 0 && token_order(b, c) <= 0 ==> token_order(a, c) <= 0,
        token_order(a, b) < 0 && token_order(b, c) <= 0 ==> token_order(a, c) < 0,
        token_order(a, b) <= 0 && token_order(b, c) < 0 ==> token_order(a, c) < 0,
{
}

/// Keys compare equal exactly when they are the same key.
pub proof fn lemma_key_order_equal(a: Seq<CharToken<u128>>, b: Seq<CharToken<u128>>)
    ensures
        key_order(a, b) == 0 <==> a == b,
        -1 <= key_order(a, b) <= 1,
    decreases a.len(),
{
    if a.len() == 0 && b.len() == 0 {
        assert(a =~= b);
    }
    if a.len() > 0 && b.len() > 0 {
        lemma_token_order_facts(a[0], b[0], a[0]);
        lemma_key_order_equal(a.drop_first(), b.drop_first());
        if a.drop_first() == b.drop_first() && a[0] == b[0] {
            assert forall|i: int| 0 <= i < a.len() implies a[i] == b[i] by {
                if i > 0 {
                    assert(a[i] == a.drop_first()[i - 1]);
                    assert(b[i] == b.drop_first()[i - 1]);
                }
            }
            assert(a =~= b);
        }
        if a == b {
            assert(a.drop_first() == b.drop_first());
        }
    }
}

/// Swapping the operands negates the order.
pub proof fn lemma_key_order_antisymmetric(a: Seq<CharToken<u128>>, b: Seq<CharToken<u128>>)
    ensures
        key_order(a, b) == -key_order(b, a),
    decreases a.len(),
{
    if a.len() > 0 && b.len() > 0 {
        lemma_token_order_facts(a[0], b[0], a[0]);
        lemma_key_order_antisymmetric(a.drop_first(), b.drop_first());
    }
}

/// The order is transitive, and strictly so when either step is strict.
pub proof fn lemma_key_order_transitive(
    a: Seq<CharToken<u128>>,
    b: Seq<CharToken<u128>>,
    c: Seq<CharToken<u128>>,
)
    ensures
        key_order(a, b) <= 0 && key_order(b, c) <= 0 ==> key_order(a, c) <= 0,
        key_order(a, b) < 0 && key_order(b, c) <= 0 ==> key_order(a, c) < 0,
        key_order(a, b) <= 0 && key_order(b, c) < 0 ==> key_order(a, c) < 0,
    decreases a.len(),
{
    if a.len() > 0 && b.len() > 0 && c.len() > 0 {
        lemma_token_order_facts(a[0], b[0], c[0]);
        lemma_token_order_facts(a[0], c[0], b[0]);
        lemma_token_order_facts(b[0], c[0], a[0]);
        lemma_key_order_transitive(a.drop_first(), b.drop_first(), c.drop_first());
    }
}

/// A character with data sorts before a character without, whatever the
/// characters and whatever follows them.
pub proof fn lemma_mapped_before_unmapped(
    data: u128,
    c: char,
    d: char,
    rest_a: Seq<CharToken<u128>>,
    rest_b: Seq<CharToken<u128>>,
)
    ensures
        key_order(
            seq![(CharToken { data: Mapped::Yes(data), character: c })] + rest_a,
            seq![(CharToken { data: Mapped::<u128>::No, character: d })] + rest_b,
        ) < 0,
{
    let a = seq![CharToken { data: Mapped::Yes(data), character: c }] + rest_a;
    let b = seq![CharToken { data: Mapped::<u128>::No, character: d }] + rest_b;
    assert(a[0] == CharToken { data: Mapped::Yes(data), character: c });
    assert(b[0] == CharToken { data: Mapped::<u128>::No, character: d });
}

/// A key sorts before every longer key that it begins.
pub proof fn lemma_prefix_sorts_first(a: Seq<CharToken<u128>>, rest: Seq<CharToken<u128>>)
    requires
        rest.len() > 0,
    ensures
        key_order(a, a + rest) < 0,
    decreases a.len(),
{
    if a.len() > 0 {
        assert((a + rest)[0] == a[0]);
        assert((a + rest).drop_first() =~= a.drop_first() + rest);
        lemma_prefix_sorts_first(a.drop_first(), rest);
    } else {
        assert(a + rest =~= rest);
    }
}

/// Compares two key data values; the sign of the result is the order.
fn compare_data(a: &Mapped<u128>, b: &Mapped<u128>) -> (r: i8)
    ensures
        r == data_order(*a, *b),
{
    match (a, b) {
        (Mapped::Yes(x), Mapped::Yes(y)) => if *x < *y {
            -1
        } else if *x == *y {
            0
        } else {
            1
        },
        (Mapped::Yes(_), Mapped::No) => -1,
        (Mapped::No, Mapped::Yes(_)) => 1,
        (Mapped::No, Mapped::No) => 0,
    }
}

/// Compares two tokens: `-1`, `0` or `1` as `token_order` says.
pub fn compare_tokens(a: &CharToken<u128>, b: &CharToken<u128>) -> (r: i8)
    ensures
        r == token_order(*a, *b),
{
    let d = compare_data(&a.data, &b.data);
    if d != 0 {
        d
    } else if a.character < b.character {
        -1
    } else if a.character == b.character {
        0
    } else {
        1
    }
}

/// Compares two keys given as token slices: `-1`, `0` or `1` as
/// `key_order` says.
pub fn compare_keys(a: &[CharToken<u128>], b: &[CharToken<u128>]) -> (r: i8)
    ensures
        r == key_order(a@, b@),
{
    let mut i: usize = 0;
    assert(a@.skip(0) =~= a@);
    assert(b@.skip(0) =~= b@);
    while i < a.len() && i < b.len()
        invariant
            i <= a.len(),
            i <= b.len(),
            key_order(a@, b@) == key_order(a@.skip(i as int), b@.skip(i as int)),
        decreases a.len() - i,
    {
        let t = compare_tokens(&a[i], &b[i]);
        assert(a@.skip(i as int)[0] == a@[i as int]);
        assert(b@.skip(i as int)[0] == b@[i as int]);
        if t != 0 {
            return t;
        }
        assert(a@.skip(i as int).drop_first() =~= a@.skip(i + 1));
        assert(b@.skip(i as int).drop_first() =~= b@.skip(i + 1));
        i += 1;
    }
    if a.len() == b.len() {
        0
    } else if i == a.len() {
        -1
    } else {
        1
    }
}

} // verus!
