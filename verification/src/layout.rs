//! The size of values in the accounted state.
//!
//! The ledger accounts for its state as if it were written out field by field:
//! a text or a byte string takes a length prefix of four bytes and then its
//! bytes, an integer takes eight bytes, and an optional field takes one byte
//! more than what it holds.

use vstd::prelude::*;
use vstd::utf8::{encode_utf8, is_ascii_chars, is_ascii_chars_encode_utf8};

verus! {

/// Bytes of a length prefix.
pub const PREFIX_BYTES: u64 = 4;

/// Bytes of an integer.
pub const WORD_BYTES: u64 = 8;

/// The number of bytes of `text` in UTF-8.
pub closed spec fn text_len(text: Seq<char>) -> nat {
    encode_utf8(text).len()
}

/// A text of ASCII characters has as many bytes as characters.
pub proof fn lemma_text_len_ascii(text: Seq<char>)
    requires
        is_ascii_chars(text),
    ensures
        text_len(text) == text.len(),
{
    is_ascii_chars_encode_utf8(text);
}

/// Accounted size of a text.
pub open spec fn text_bytes(text: Seq<char>) -> nat {
    PREFIX_BYTES as nat + text_len(text)
}

/// Accounted size of an optional text.
pub open spec fn opt_text_bytes(text: Option<Seq<char>>) -> nat {
    match text {
        Some(t) => 1 + text_bytes(t),
        None => 1,
    }
}

/// Accounted size of an optional byte string.
pub open spec fn opt_blob_bytes(blob: Option<Seq<u8>>) -> nat {
    match blob {
        Some(b) => 1 + PREFIX_BYTES as nat + b.len(),
        None => 1,
    }
}

/// Accounted size of an optional integer.
pub open spec fn opt_word_bytes(word: Option<u64>) -> nat {
    match word {
        Some(_) => 1 + WORD_BYTES as nat,
        None => 1,
    }
}

/// What an optional text holds.
pub open spec fn opt_text_view(text: Option<String>) -> Option<Seq<char>> {
    match text {
        Some(t) => Some(t@),
        None => None,
    }
}

/// What an optional byte string holds.
pub open spec fn opt_blob_view(blob: Option<Vec<u8>>) -> Option<Seq<u8>> {
    match blob {
        Some(b) => Some(b@),
        None => None,
    }
}

/// What a list of texts holds.
pub open spec fn text_views(texts: Seq<String>) -> Seq<Seq<char>> {
    Seq::new(texts.len(), |i: int| texts[i]@)
}

/// The sum of the numbers in `weights`.
pub open spec fn total(weights: Seq<nat>) -> nat
    decreases weights.len(),
{
    if weights.len() == 0 {
        0
    } else {
        total(weights.drop_last()) + weights.last()
    }
}

/// A sum grows by what is appended.
pub proof fn lemma_total_push(weights: Seq<nat>, w: nat)
    ensures
        total(weights.push(w)) == total(weights) + w,
{
    assert(weights.push(w).drop_last() =~= weights);
}

/// A sum shrinks by what is taken out.
pub proof fn lemma_total_remove(weights: Seq<nat>, i: int)
    requires
        0 <= i < weights.len(),
    ensures
        total(weights.remove(i)) + weights[i] == total(weights),
    decreases weights.len(),
{
    if i == weights.len() - 1 {
    } else {
        lemma_total_remove(weights.drop_last(), i);
        assert(weights.remove(i).drop_last() =~= weights.drop_last().remove(i));
    }
}

/// A sum changes by the difference of what is replaced.
pub proof fn lemma_total_update(weights: Seq<nat>, i: int, w: nat)
    requires
        0 <= i < weights.len(),
    ensures
        total(weights.update(i, w)) + weights[i] == total(weights) + w,
    decreases weights.len(),
{
    if i == weights.len() - 1 {
        assert(weights.update(i, w).drop_last() =~= weights.drop_last());
    } else {
        lemma_total_update(weights.drop_last(), i, w);
        assert(weights.update(i, w).drop_last() =~= weights.drop_last().update(i, w));
    }
}

/// Each number of a sum is at most the sum.
pub proof fn lemma_total_bounds(weights: Seq<nat>, i: int)
    requires
        0 <= i < weights.len(),
    ensures
        weights[i] <= total(weights),
{
    lemma_total_remove(weights, i);
}

/// The sum of the weights that `weight` gives to the items.
pub open spec fn weigh<T>(items: Seq<T>, weight: spec_fn(T) -> nat) -> nat {
    total(items.map_values(weight))
}

/// Nothing weighs nothing.
pub proof fn lemma_weigh_empty<T>(weight: spec_fn(T) -> nat)
    ensures
        weigh(Seq::<T>::empty(), weight) == 0,
{}

/// An item added adds its weight.
pub proof fn lemma_weigh_push<T>(items: Seq<T>, weight: spec_fn(T) -> nat, item: T)
    ensures
        weigh(items.push(item), weight) == weigh(items, weight) + weight(item),
{
    assert(items.push(item).map_values(weight) =~= items.map_values(weight).push(weight(item)));
    lemma_total_push(items.map_values(weight), weight(item));
}

/// An item taken out takes its weight with it.
pub proof fn lemma_weigh_remove<T>(items: Seq<T>, weight: spec_fn(T) -> nat, i: int)
    requires
        0 <= i < items.len(),
    ensures
        weigh(items.remove(i), weight) + weight(items[i]) == weigh(items, weight),
{
    assert(items.remove(i).map_values(weight) =~= items.map_values(weight).remove(i));
    lemma_total_remove(items.map_values(weight), i);
}

/// An item replaced changes the weight by the difference.
pub proof fn lemma_weigh_update<T>(items: Seq<T>, weight: spec_fn(T) -> nat, i: int, item: T)
    requires
        0 <= i < items.len(),
    ensures
        weigh(items.update(i, item), weight) + weight(items[i]) == weigh(items, weight) + weight(
            item,
        ),
{
    assert(items.update(i, item).map_values(weight) =~= items.map_values(weight).update(
        i,
        weight(item),
    ));
    lemma_total_update(items.map_values(weight), i, weight(item));
}

/// The first items weigh no more than all of them, and one item more adds its
/// weight.
pub proof fn lemma_weigh_prefix<T>(items: Seq<T>, weight: spec_fn(T) -> nat, n: int)
    requires
        0 <= n <= items.len(),
    ensures
        weigh(items.take(n), weight) <= weigh(items, weight),
        n < items.len() ==> weigh(items.take(n + 1), weight) == weigh(items.take(n), weight)
            + weight(items[n]),
    decreases items.len() - n,
{
    if n == items.len() {
        assert(items.take(n) =~= items);
    } else {
        assert(items.take(n + 1) =~= items.take(n).push(items[n]));
        lemma_weigh_push(items.take(n), weight, items[n]);
        lemma_weigh_prefix(items, weight, n + 1);
    }
}

/// No item weighs more than all of them.
pub proof fn lemma_weigh_bounds<T>(items: Seq<T>, weight: spec_fn(T) -> nat, i: int)
    requires
        0 <= i < items.len(),
    ensures
        weight(items[i]) <= weigh(items, weight),
{
    lemma_total_bounds(items.map_values(weight), i);
}

/// `total` and `more` together, unless that is beyond 64 bits.
pub fn add_bytes(total: u64, more: u128) -> (sum: Option<u64>)
    requires
        more <= u128::MAX - u64::MAX,
    ensures
        sum == (if total + more <= u64::MAX {
            Some((total + more) as u64)
        } else {
            None
        }),
{
    let sum: u128 = total as u128 + more;
    if sum <= u64::MAX as u128 {
        Some(sum as u64)
    } else {
        None
    }
}

/// The number of bytes of `text` in UTF-8.
pub fn text_len_of(text: &String) -> (n: usize)
    ensures
        n == text_len(text@),
{
    text.as_str().as_bytes().len()
}

/// Accounted size of a text.
pub fn text_bytes_of(text: &String) -> (n: u128)
    ensures
        n == text_bytes(text@),
        n <= usize::MAX + PREFIX_BYTES,
{
    text_len_of(text) as u128 + PREFIX_BYTES as u128
}

/// Accounted size of an optional text.
pub fn opt_text_bytes_of(text: &Option<String>) -> (n: u128)
    ensures
        n == opt_text_bytes(opt_text_view(*text)),
        n <= usize::MAX + PREFIX_BYTES + 1,
{
    match text {
        Some(t) => text_bytes_of(t) + 1,
        None => 1,
    }
}

/// Accounted size of an optional byte string.
pub fn opt_blob_bytes_of(blob: &Option<Vec<u8>>) -> (n: u128)
    ensures
        n == opt_blob_bytes(opt_blob_view(*blob)),
        n <= usize::MAX + PREFIX_BYTES + 1,
{
    match blob {
        Some(b) => b.len() as u128 + PREFIX_BYTES as u128 + 1,
        None => 1,
    }
}

/// Accounted size of an optional integer.
pub fn opt_word_bytes_of(word: &Option<u64>) -> (n: u128)
    ensures
        n == opt_word_bytes(*word),
        n <= WORD_BYTES + 1,
{
    match word {
        Some(_) => WORD_BYTES as u128 + 1,
        None => 1,
    }
}

} // verus!
