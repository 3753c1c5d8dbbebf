//! Who owns which token.
//!
//! The index is modelled as the sequence of its `(token, owner)` pairs in the
//! order in which the tokens were first given an owner. The tokens of one
//! owner are read off that sequence, so the two directions cannot disagree.

use vstd::prelude::*;
use crate::layout::{
    add_bytes, lemma_weigh_empty, lemma_weigh_prefix, text_bytes, text_bytes_of, text_views, weigh,
};
use crate::table::{
    distinct_keys, entry_views, has_key, index_of_key, lemma_index_of_key, lookup, with_row,
    without_row, Entry, Table,
};

verus! {

/// The tokens that `owner` holds, in the order of `rows`.
pub open spec fn tokens_owned(rows: Seq<(Seq<char>, Seq<char>)>, owner: Seq<char>) -> Seq<
    Seq<char>,
>
    decreases rows.len(),
{
    if rows.len() == 0 {
        Seq::empty()
    } else {
        let rest = tokens_owned(rows.drop_last(), owner);
        if rows.last().1 == owner {
            rest.push(rows.last().0)
        } else {
            rest
        }
    }
}

/// Accounted size of one pair.
pub open spec fn holding_bytes(row: (Seq<char>, Seq<char>)) -> nat {
    text_bytes(row.0) + text_bytes(row.1)
}

/// The weight by which pairs are accounted.
pub open spec fn holding_weight() -> spec_fn((Seq<char>, Seq<char>)) -> nat {
    |row: (Seq<char>, Seq<char>)| holding_bytes(row)
}

/// Accounted size of all pairs.
pub open spec fn holdings_bytes(rows: Seq<(Seq<char>, Seq<char>)>) -> nat {
    weigh(rows, holding_weight())
}

/// A token stands among an owner's tokens exactly if it belongs to that owner.
pub proof fn lemma_owned_iff_owner(
    rows: Seq<(Seq<char>, Seq<char>)>,
    owner: Seq<char>,
    token: Seq<char>,
)
    requires
        distinct_keys(rows),
    ensures
        tokens_owned(rows, owner).contains(token) <==> lookup(rows, token) == Some(owner),
    decreases rows.len(),
{
    if rows.len() == 0 {
        assert(!has_key(rows, token));
    } else {
        let front = rows.drop_last();
        let last = rows.len() - 1;
        assert forall|i: int, j: int|
            0 <= i < front.len() && 0 <= j < front.len() && i != j implies (#[trigger] front[i]).0
            != (#[trigger] front[j]).0 by {
            assert(front[i] == rows[i]);
            assert(front[j] == rows[j]);
        }
        lemma_owned_iff_owner(front, owner, token);
        let rest = tokens_owned(front, owner);
        if rows[last].0 == token {
            lemma_index_of_key(rows, last);
            assert(!has_key(front, token)) by {
                if has_key(front, token) {
                    let i = index_of_key(front, token);
                    assert(front[i] == rows[i]);
                    assert(rows[i].0 == rows[last].0);
                }
            }
            assert(!rest.contains(token));
            if rows[last].1 == owner {
                assert(rest.push(token)[rest.len() as int] == token);
            }
        } else {
            if has_key(rows, token) {
                let i = index_of_key(rows, token);
                assert(i != last);
                assert(front[i] == rows[i]);
                lemma_index_of_key(front, i);
                lemma_index_of_key(rows, i);
            } else {
                assert(!has_key(front, token)) by {
                    if has_key(front, token) {
                        let i = index_of_key(front, token);
                        assert(front[i] == rows[i]);
                    }
                }
            }
            assert(lookup(front, token) == lookup(rows, token));
            if rows[last].1 == owner {
                let grown = rest.push(rows[last].0);
                if grown.contains(token) {
                    let i = choose|i: int| 0 <= i < grown.len() && grown[i] == token;
                    assert(i < rest.len());
                    assert(rest[i] == token);
                }
                if rest.contains(token) {
                    let i = choose|i: int| 0 <= i < rest.len() && rest[i] == token;
                    assert(grown[i] == token);
                }
            }
        }
    }
}

/// No token stands among the tokens of two owners.
pub proof fn lemma_one_owner(
    rows: Seq<(Seq<char>, Seq<char>)>,
    first: Seq<char>,
    second: Seq<char>,
    token: Seq<char>,
)
    requires
        distinct_keys(rows),
        tokens_owned(rows, first).contains(token),
        tokens_owned(rows, second).contains(token),
    ensures
        first == second,
{
    lemma_owned_iff_owner(rows, first, token);
    lemma_owned_iff_owner(rows, second, token);
}

/// The index of owners.
pub struct OwnershipIndex {
    holdings: Table<String>,
}

impl View for OwnershipIndex {
    type V = Seq<(Seq<char>, Seq<char>)>;

    closed spec fn view(&self) -> Seq<(Seq<char>, Seq<char>)> {
        self.holdings@
    }
}

impl OwnershipIndex {
    /// Each token stands in the index once.
    pub open spec fn wf(&self) -> bool {
        distinct_keys(self@)
    }

    /// An index without tokens.
    pub fn new() -> (index: Self)
        ensures
            index@ == Seq::<(Seq<char>, Seq<char>)>::empty(),
            index.wf(),
    {
        OwnershipIndex { holdings: Table::new() }
    }

    /// The number of tokens.
    pub fn len(&self) -> (n: usize)
        ensures
            n == self@.len(),
    {
        self.holdings.len()
    }

    /// The place of `token` in the order of the index.
    pub fn position(&self, token: &String) -> (place: Option<usize>)
        requires
            self.wf(),
        ensures
            match place {
                Some(i) => has_key(self@, token@) && i == index_of_key(self@, token@) && i
                    < self@.len() && self@[i as int].0 == token@,
                None => !has_key(self@, token@),
            },
    {
        self.holdings.find(token)
    }

    /// The token at place `i`.
    pub fn token_at(&self, i: usize) -> (token: &String)
        requires
            i < self@.len(),
        ensures
            token@ == self@[i as int].0,
    {
        self.holdings.key_at(i)
    }

    /// The owner of the token at place `i`.
    pub fn owner_at(&self, i: usize) -> (owner: &String)
        requires
            i < self@.len(),
        ensures
            owner@ == self@[i as int].1,
    {
        self.holdings.value_at(i)
    }

    /// The owner of `token`, if the token is in the index.
    pub fn owner_of(&self, token: &String) -> (owner: Option<String>)
        requires
            self.wf(),
        ensures
            match owner {
                Some(o) => lookup(self@, token@) == Some(o@),
                None => lookup(self@, token@).is_none(),
            },
    {
        match self.holdings.find(token) {
            Some(i) => Some(self.holdings.value_at(i).clone()),
            None => None,
        }
    }

    /// Gives `token` to `owner`, whether or not it had an owner.
    pub fn set_owner(&mut self, token: String, owner: String)
        requires
            old(self).wf(),
        ensures
            final(self)@ == with_row(old(self)@, token@, owner@),
            final(self).wf(),
    {
        self.holdings.set(token, owner);
    }

    /// The tokens of `owner`, in the order of the index.
    pub fn tokens_of(&self, owner: &String) -> (tokens: Vec<String>)
        ensures
            text_views(tokens@) == tokens_owned(self@, owner@),
    {
        let mut tokens: Vec<String> = Vec::new();
        let mut i: usize = 0;
        assert(self@.take(0) =~= Seq::<(Seq<char>, Seq<char>)>::empty());
        assert(text_views(tokens@) =~= tokens_owned(self@.take(0), owner@));
        while i < self.holdings.len()
            invariant
                i <= self@.len(),
                self@ == self.holdings@,
                text_views(tokens@) == tokens_owned(self@.take(i as int), owner@),
            decreases self@.len() - i,
        {
            let ghost before = tokens@;
            assert(self@.take(i + 1).drop_last() =~= self@.take(i as int));
            assert(self@.take(i + 1).last() == self@[i as int]);
            if *self.holdings.value_at(i) == *owner {
                tokens.push(self.holdings.key_at(i).clone());
                assert(text_views(tokens@) =~= text_views(before).push(self@[i as int].0));
            }
            i += 1;
        }
        assert(self@.take(self@.len() as int) =~= self@);
        tokens
    }

    /// Takes `token` out of the index and hands back who owned it.
    pub fn remove(&mut self, token: &String) -> (owner: Option<String>)
        requires
            old(self).wf(),
        ensures
            final(self)@ == without_row(old(self)@, token@),
            final(self).wf(),
            match owner {
                Some(o) => lookup(old(self)@, token@) == Some(o@),
                None => lookup(old(self)@, token@).is_none(),
            },
    {
        self.holdings.take(token)
    }

    /// The index of `rows`, in their order, unless a token stands in two of
    /// them.
    pub fn from_rows(rows: Vec<Entry<String>>) -> (index: Option<Self>)
        ensures
            match index {
                Some(x) => x@ == entry_views(rows@) && x.wf(),
                None => !distinct_keys(entry_views(rows@)),
            },
    {
        match Table::collect(rows) {
            Some(holdings) => Some(OwnershipIndex { holdings }),
            None => None,
        }
    }

    /// The pairs of the index, in its order.
    pub fn to_rows(&self) -> (rows: Vec<Entry<String>>)
        ensures
            entry_views(rows@) == self@,
    {
        let mut rows: Vec<Entry<String>> = Vec::new();
        let mut i: usize = 0;
        while i < self.holdings.len()
            invariant
                i <= self@.len(),
                self@ == self.holdings@,
                rows@.len() == i,
                forall|k: int| 0 <= k < i ==> #[trigger] entry_views(rows@)[k] == self@[k],
            decreases self@.len() - i,
        {
            let ghost before = rows@;
            rows.push(
                Entry {
                    key: self.holdings.key_at(i).clone(),
                    value: self.holdings.value_at(i).clone(),
                },
            );
            proof {
                assert forall|k: int| 0 <= k < i + 1 implies #[trigger] entry_views(rows@)[k]
                    == self@[k] by {
                    if k < i {
                        assert(rows@[k] == before[k]);
                        assert(entry_views(before)[k] == self@[k]);
                    }
                }
            }
            i += 1;
        }
        assert(entry_views(rows@) =~= self@);
        rows
    }

    /// Accounted size of the index, unless it is beyond 64 bits.
    pub fn bytes(&self) -> (n: Option<u64>)
        ensures
            match n {
                Some(bytes) => bytes == holdings_bytes(self@),
                None => holdings_bytes(self@) > u64::MAX,
            },
    {
        let mut n: u64 = 0;
        let mut i: usize = 0;
        proof {
            assert(self@.take(0) =~= Seq::<(Seq<char>, Seq<char>)>::empty());
            lemma_weigh_empty(holding_weight());
        }
        while i < self.holdings.len()
            invariant
                i <= self@.len(),
                self@ == self.holdings@,
                n == holdings_bytes(self@.take(i as int)),
            decreases self@.len() - i,
        {
            proof {
                lemma_weigh_prefix(self@, holding_weight(), i as int);
                lemma_weigh_prefix(self@, holding_weight(), i + 1);
            }
            let row: u128 = text_bytes_of(self.holdings.key_at(i)) + text_bytes_of(
                self.holdings.value_at(i),
            );
            match add_bytes(n, row) {
                Some(sum) => {
                    n = sum;
                },
                None => {
                    return None;
                },
            }
            i += 1;
        }
        assert(self@.take(self@.len() as int) =~= self@);
        Some(n)
    }
}

} // verus!
