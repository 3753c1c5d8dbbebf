//! An insertion-ordered table from text keys to values.
//!
//! The table is modelled as the sequence of its `(key, value)` pairs, in the
//! order in which the keys were added. A well-formed table holds each key once.

use vstd::prelude::*;
use crate::layout::{lemma_weigh_push, lemma_weigh_remove, lemma_weigh_update, weigh};

verus! {

/// One row of a table.
#[derive(Clone, Debug, PartialEq, Eq)]
pub struct Entry<V> {
    pub key: String,
    pub value: V,
}

/// An insertion-ordered table with `String` keys.
pub struct Table<V> {
    entries: Vec<Entry<V>>,
}

/// No key stands in two rows.
pub open spec fn distinct_keys<V>(rows: Seq<(Seq<char>, V)>) -> bool {
    forall|i: int, j: int|
        0 <= i < rows.len() && 0 <= j < rows.len() && i != j ==> (#[trigger] rows[i]).0
            != (#[trigger] rows[j]).0
}

/// Some row has the key `key`.
pub open spec fn has_key<V>(rows: Seq<(Seq<char>, V)>, key: Seq<char>) -> bool {
    exists|i: int| 0 <= i < rows.len() && (#[trigger] rows[i]).0 == key
}

/// The place of a row with the key `key`, where there is one.
pub open spec fn index_of_key<V>(rows: Seq<(Seq<char>, V)>, key: Seq<char>) -> int {
    choose|i: int| 0 <= i < rows.len() && (#[trigger] rows[i]).0 == key
}

/// The value stored under `key`, where there is one.
pub open spec fn lookup<V>(rows: Seq<(Seq<char>, V)>, key: Seq<char>) -> Option<V> {
    if has_key(rows, key) {
        Some(rows[index_of_key(rows, key)].1)
    } else {
        None
    }
}

/// The keys of the rows, in order.
pub open spec fn keys_of<V>(rows: Seq<(Seq<char>, V)>) -> Seq<Seq<char>> {
    Seq::new(rows.len(), |i: int| rows[i].0)
}

/// In a table with distinct keys, a key is found at the one place where it
/// stands.
pub proof fn lemma_index_of_key<V>(rows: Seq<(Seq<char>, V)>, i: int)
    requires
        distinct_keys(rows),
        0 <= i < rows.len(),
    ensures
        has_key(rows, rows[i].0),
        index_of_key(rows, rows[i].0) == i,
        lookup(rows, rows[i].0) == Some(rows[i].1),
{
    let key = rows[i].0;
    assert(0 <= i < rows.len() && rows[i].0 == key);
    let j = index_of_key(rows, key);
    assert(0 <= j < rows.len() && rows[j].0 == key);
}

/// Adding a row with a fresh key keeps the keys distinct and leaves every
/// other lookup as it was.
pub proof fn lemma_push_row<V>(rows: Seq<(Seq<char>, V)>, key: Seq<char>, value: V)
    requires
        distinct_keys(rows),
        !has_key(rows, key),
    ensures
        distinct_keys(rows.push((key, value))),
        lookup(rows.push((key, value)), key) == Some(value),
        forall|k: Seq<char>|
            k != key ==> #[trigger] lookup(rows.push((key, value)), k) == lookup(rows, k),
        forall|k: Seq<char>|
            #[trigger] has_key(rows.push((key, value)), k) <==> (k == key || has_key(rows, k)),
{
    let next = rows.push((key, value));
    assert forall|i: int, j: int|
        0 <= i < next.len() && 0 <= j < next.len() && i != j implies (#[trigger] next[i]).0 != (
    #[trigger] next[j]).0 by {
        if i < rows.len() {
            assert(next[i] == rows[i]);
        }
        if j < rows.len() {
            assert(next[j] == rows[j]);
        }
    }
    lemma_index_of_key(next, rows.len() as int);
    assert forall|k: Seq<char>| #[trigger]
        has_key(next, k) <==> (k == key || has_key(rows, k)) by {
        if has_key(next, k) {
            let i = index_of_key(next, k);
            if i < rows.len() {
                assert(rows[i] == next[i]);
            }
        }
        if has_key(rows, k) {
            let i = index_of_key(rows, k);
            assert(next[i] == rows[i]);
        }
        if k == key {
            assert(next[rows.len() as int].0 == key);
        }
    }
    assert forall|k: Seq<char>| k != key implies #[trigger] lookup(next, k) == lookup(rows, k) by {
        if has_key(rows, k) {
            let i = index_of_key(rows, k);
            assert(next[i] == rows[i]);
            lemma_index_of_key(next, i);
        }
    }
}

/// Replacing the value of one row keeps the keys and leaves every other lookup
/// as it was.
pub proof fn lemma_update_row<V>(rows: Seq<(Seq<char>, V)>, i: int, value: V)
    requires
        distinct_keys(rows),
        0 <= i < rows.len(),
    ensures
        distinct_keys(rows.update(i, (rows[i].0, value))),
        keys_of(rows.update(i, (rows[i].0, value))) == keys_of(rows),
        lookup(rows.update(i, (rows[i].0, value)), rows[i].0) == Some(value),
        forall|k: Seq<char>|
            k != rows[i].0 ==> #[trigger] lookup(rows.update(i, (rows[i].0, value)), k) == lookup(
                rows,
                k,
            ),
        forall|k: Seq<char>|
            #[trigger] has_key(rows.update(i, (rows[i].0, value)), k) <==> has_key(rows, k),
{
    let key = rows[i].0;
    let next = rows.update(i, (key, value));
    assert forall|a: int, b: int|
        0 <= a < next.len() && 0 <= b < next.len() && a != b implies (#[trigger] next[a]).0 != (
    #[trigger] next[b]).0 by {
        assert(next[a].0 == rows[a].0);
        assert(next[b].0 == rows[b].0);
    }
    assert(keys_of(next) =~= keys_of(rows));
    lemma_index_of_key(next, i);
    assert forall|k: Seq<char>| #[trigger] has_key(next, k) <==> has_key(rows, k) by {
        if has_key(next, k) {
            let a = index_of_key(next, k);
            assert(rows[a].0 == k);
        }
        if has_key(rows, k) {
            let a = index_of_key(rows, k);
            assert(next[a].0 == k);
        }
    }
    assert forall|k: Seq<char>| k != key implies #[trigger] lookup(next, k) == lookup(rows, k) by {
        if has_key(rows, k) {
            let a = index_of_key(rows, k);
            assert(a != i);
            assert(next[a] == rows[a]);
            lemma_index_of_key(next, a);
        }
    }
}

/// Taking one row out keeps the keys distinct, forgets that row's key and
/// leaves every other lookup as it was.
pub proof fn lemma_remove_row<V>(rows: Seq<(Seq<char>, V)>, i: int)
    requires
        distinct_keys(rows),
        0 <= i < rows.len(),
    ensures
        distinct_keys(rows.remove(i)),
        !has_key(rows.remove(i), rows[i].0),
        forall|k: Seq<char>|
            k != rows[i].0 ==> #[trigger] lookup(rows.remove(i), k) == lookup(rows, k),
        forall|k: Seq<char>|
            #[trigger] has_key(rows.remove(i), k) <==> (k != rows[i].0 && has_key(rows, k)),
{
    let key = rows[i].0;
    let next = rows.remove(i);
    assert forall|a: int| 0 <= a < next.len() implies #[trigger] next[a] == rows[if a < i {
        a
    } else {
        a + 1
    }] by {}
    assert forall|a: int, b: int|
        0 <= a < next.len() && 0 <= b < next.len() && a != b implies (#[trigger] next[a]).0 != (
    #[trigger] next[b]).0 by {
        let a0 = if a < i { a } else { a + 1 };
        let b0 = if b < i { b } else { b + 1 };
        assert(next[a] == rows[a0]);
        assert(next[b] == rows[b0]);
    }
    assert forall|k: Seq<char>| #[trigger]
        has_key(next, k) <==> (k != key && has_key(rows, k)) by {
        if has_key(next, k) {
            let a = index_of_key(next, k);
            let a0 = if a < i { a } else { a + 1 };
            assert(next[a] == rows[a0]);
            assert(rows[a0].0 == k);
            assert(a0 != i);
        }
        if k != key && has_key(rows, k) {
            let a0 = index_of_key(rows, k);
            assert(a0 != i);
            let a = if a0 < i { a0 } else { a0 - 1 };
            assert(next[a] == rows[a0]);
        }
    }
    assert forall|k: Seq<char>| k != key implies #[trigger] lookup(next, k) == lookup(rows, k) by {
        if has_key(rows, k) {
            let a0 = index_of_key(rows, k);
            assert(a0 != i);
            let a = if a0 < i { a0 } else { a0 - 1 };
            assert(next[a] == rows[a0]);
            lemma_index_of_key(next, a);
        }
    }
}

/// The rows after `value` was stored under `key`: the key keeps its place if
/// it had one, else it comes last.
pub open spec fn with_row<V>(rows: Seq<(Seq<char>, V)>, key: Seq<char>, value: V) -> Seq<
    (Seq<char>, V),
> {
    if has_key(rows, key) {
        rows.update(index_of_key(rows, key), (key, value))
    } else {
        rows.push((key, value))
    }
}

/// The rows without the one of `key`.
pub open spec fn without_row<V>(rows: Seq<(Seq<char>, V)>, key: Seq<char>) -> Seq<(Seq<char>, V)> {
    if has_key(rows, key) {
        rows.remove(index_of_key(rows, key))
    } else {
        rows
    }
}

/// The weight of the row of `key`, nothing where there is none.
pub open spec fn row_weight<V>(
    rows: Seq<(Seq<char>, V)>,
    key: Seq<char>,
    weight: spec_fn((Seq<char>, V)) -> nat,
) -> nat {
    match lookup(rows, key) {
        Some(v) => weight((key, v)),
        None => 0,
    }
}

/// Storing a value under a key changes the lookup of that key only, and the
/// weight of the table by the difference of the old row and the new.
pub proof fn lemma_with_row<V>(
    rows: Seq<(Seq<char>, V)>,
    key: Seq<char>,
    value: V,
    weight: spec_fn((Seq<char>, V)) -> nat,
)
    requires
        distinct_keys(rows),
    ensures
        distinct_keys(with_row(rows, key, value)),
        lookup(with_row(rows, key, value), key) == Some(value),
        forall|k: Seq<char>|
            k != key ==> #[trigger] lookup(with_row(rows, key, value), k) == lookup(rows, k),
        forall|k: Seq<char>|
            #[trigger] has_key(with_row(rows, key, value), k) <==> (k == key || has_key(rows, k)),
        weigh(with_row(rows, key, value), weight) + row_weight(rows, key, weight) == weigh(
            rows,
            weight,
        ) + weight((key, value)),
{
    if has_key(rows, key) {
        let i = index_of_key(rows, key);
        lemma_update_row(rows, i, value);
        lemma_weigh_update(rows, weight, i, (key, value));
    } else {
        lemma_push_row(rows, key, value);
        lemma_weigh_push(rows, weight, (key, value));
    }
}

/// Taking the row of a key out changes the lookup of that key only, and the
/// weight of the table by the weight of that row.
pub proof fn lemma_without_row<V>(
    rows: Seq<(Seq<char>, V)>,
    key: Seq<char>,
    weight: spec_fn((Seq<char>, V)) -> nat,
)
    requires
        distinct_keys(rows),
    ensures
        distinct_keys(without_row(rows, key)),
        !has_key(without_row(rows, key), key),
        lookup(without_row(rows, key), key).is_none(),
        forall|k: Seq<char>|
            k != key ==> #[trigger] lookup(without_row(rows, key), k) == lookup(rows, k),
        forall|k: Seq<char>|
            #[trigger] has_key(without_row(rows, key), k) <==> (k != key && has_key(rows, k)),
        weigh(without_row(rows, key), weight) + row_weight(rows, key, weight) == weigh(
            rows,
            weight,
        ),
{
    if has_key(rows, key) {
        let i = index_of_key(rows, key);
        lemma_remove_row(rows, i);
        lemma_weigh_remove(rows, weight, i);
    }
}

/// What a list of rows holds.
pub open spec fn entry_views<V: View>(rows: Seq<Entry<V>>) -> Seq<(Seq<char>, V::V)> {
    Seq::new(rows.len(), |i: int| (rows[i].key@, rows[i].value@))
}

impl<V: View> View for Table<V> {
    type V = Seq<(Seq<char>, V::V)>;

    closed spec fn view(&self) -> Seq<(Seq<char>, V::V)> {
        Seq::new(self.entries@.len(), |i: int| (self.entries@[i].key@, self.entries@[i].value@))
    }
}

impl<V: View> Table<V> {
    /// Each key stands in one row only.
    pub open spec fn wf(&self) -> bool {
        distinct_keys(self@)
    }

    /// A table without rows.
    pub fn new() -> (table: Self)
        ensures
            table@ == Seq::<(Seq<char>, V::V)>::empty(),
            table.wf(),
    {
        let table = Table { entries: Vec::new() };
        assert(table@ =~= Seq::<(Seq<char>, V::V)>::empty());
        table
    }

    /// A table of `rows`, in their order, unless a key stands in two of them.
    pub fn collect(rows: Vec<Entry<V>>) -> (table: Option<Self>)
        ensures
            match table {
                Some(t) => t@ == entry_views(rows@) && t.wf(),
                None => !distinct_keys(entry_views(rows@)),
            },
    {
        let ghost views = entry_views(rows@);
        let mut i: usize = 0;
        while i < rows.len()
            invariant
                i <= rows@.len(),
                views == entry_views(rows@),
                forall|a: int, b: int|
                    0 <= a < i && 0 <= b < i && a != b ==> (#[trigger] views[a]).0 != (
                    #[trigger] views[b]).0,
            decreases rows@.len() - i,
        {
            let mut j: usize = 0;
            while j < i
                invariant
                    j <= i < rows@.len(),
                    views == entry_views(rows@),
                    forall|b: int| 0 <= b < j ==> (#[trigger] views[b]).0 != views[i as int].0,
                decreases i - j,
            {
                if rows[j].key == rows[i].key {
                    assert(views[j as int].0 == views[i as int].0);
                    return None;
                }
                j += 1;
            }
            i += 1;
        }
        let table = Table { entries: rows };
        assert(table@ =~= views);
        Some(table)
    }

    /// The number of rows.
    pub fn len(&self) -> (n: usize)
        ensures
            n == self@.len(),
    {
        self.entries.len()
    }

    /// The first place at which `key` stands, if it stands anywhere.
    pub fn find(&self, key: &String) -> (place: Option<usize>)
        ensures
            match place {
                Some(i) => i < self@.len() && self@[i as int].0 == key@,
                None => !has_key(self@, key@),
            },
            self.wf() ==> place == (if has_key(self@, key@) {
                Some(index_of_key(self@, key@) as usize)
            } else {
                None
            }),
    {
        let mut i: usize = 0;
        while i < self.entries.len()
            invariant
                i <= self.entries@.len(),
                forall|j: int| 0 <= j < i ==> (#[trigger] self@[j]).0 != key@,
            decreases self.entries@.len() - i,
        {
            if self.entries[i].key == *key {
                proof {
                    if self.wf() {
                        lemma_index_of_key(self@, i as int);
                    }
                }
                return Some(i);
            }
            i += 1;
        }
        None
    }

    /// The key of row `i`.
    pub fn key_at(&self, i: usize) -> (key: &String)
        requires
            i < self@.len(),
        ensures
            key@ == self@[i as int].0,
    {
        &self.entries[i].key
    }

    /// The value of row `i`.
    pub fn value_at(&self, i: usize) -> (value: &V)
        requires
            i < self@.len(),
        ensures
            value@ == self@[i as int].1,
    {
        &self.entries[i].value
    }

    /// The value of row `i`, to be changed in place.
    pub fn value_mut(&mut self, i: usize) -> (value: &mut V)
        requires
            i < old(self)@.len(),
        ensures
            value@ == old(self)@[i as int].1,
            final(self)@ == old(self)@.update(i as int, (old(self)@[i as int].0, final(value)@)),
            old(self).wf() ==> final(self).wf(),
    {
        let ghost before = self@;
        let row = &mut self.entries[i];
        let value = &mut row.value;
        proof {
            assert(after_borrow(self)@ =~= before.update(
                i as int,
                (before[i as int].0, final(value)@),
            ));
            if distinct_keys(before) {
                lemma_update_row(before, i as int, final(value)@);
            }
        }
        value
    }

    /// Adds a row at the end.
    pub fn push(&mut self, key: String, value: V)
        ensures
            final(self)@ == old(self)@.push((key@, value@)),
            old(self).wf() && !has_key(old(self)@, key@) ==> final(self).wf(),
    {
        self.entries.push(Entry { key, value });
        proof {
            assert(self@ =~= old(self)@.push((key@, value@)));
            if old(self).wf() && !has_key(old(self)@, key@) {
                lemma_push_row(old(self)@, key@, value@);
            }
        }
    }

    /// Puts `value` in row `i` and hands back what stood there.
    pub fn replace(&mut self, i: usize, value: V) -> (previous: V)
        requires
            i < old(self)@.len(),
        ensures
            final(self)@ == old(self)@.update(i as int, (old(self)@[i as int].0, value@)),
            previous@ == old(self)@[i as int].1,
            old(self).wf() ==> final(self).wf(),
    {
        let row = self.entries.remove(i);
        let Entry { key, value: previous } = row;
        self.entries.insert(i, Entry { key, value });
        proof {
            assert(self@ =~= old(self)@.update(i as int, (old(self)@[i as int].0, value@)));
            if old(self).wf() {
                lemma_update_row(old(self)@, i as int, value@);
            }
        }
        previous
    }

    /// Stores `value` under `key`, in the key's place if it has one, else at
    /// the end.
    pub fn set(&mut self, key: String, value: V)
        requires
            old(self).wf(),
        ensures
            final(self)@ == with_row(old(self)@, key@, value@),
            final(self).wf(),
    {
        match self.find(&key) {
            Some(i) => {
                self.replace(i, value);
            },
            None => {
                self.push(key, value);
            },
        }
    }

    /// Takes the row of `key` out, if there is one, and hands its value back.
    pub fn take(&mut self, key: &String) -> (value: Option<V>)
        requires
            old(self).wf(),
        ensures
            final(self)@ == without_row(old(self)@, key@),
            final(self).wf(),
            match value {
                Some(v) => lookup(old(self)@, key@) == Some(v@),
                None => lookup(old(self)@, key@).is_none(),
            },
    {
        match self.find(key) {
            Some(i) => {
                let row = self.remove(i);
                Some(row.value)
            },
            None => None,
        }
    }

    /// Takes row `i` out; the rows behind it move up.
    pub fn remove(&mut self, i: usize) -> (row: Entry<V>)
        requires
            i < old(self)@.len(),
        ensures
            final(self)@ == old(self)@.remove(i as int),
            row.key@ == old(self)@[i as int].0,
            row.value@ == old(self)@[i as int].1,
            old(self).wf() ==> final(self).wf(),
    {
        let row = self.entries.remove(i);
        proof {
            assert(self@ =~= old(self)@.remove(i as int));
            if old(self).wf() {
                lemma_remove_row(old(self)@, i as int);
            }
        }
        row
    }
}

} // verus!
