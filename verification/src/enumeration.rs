//! Listing the tokens of a ledger, page by page.
//!
//! Tokens are listed in the order in which they were minted. A transfer does
//! not change a token's place in that order, so pages stay put as long as no
//! token is minted or burned.

use vstd::prelude::*;
use crate::layout::text_views;
use crate::ledger::{token_views, Token, TokenLedger};
use crate::model::{LedgerView, TokenView};
use crate::ownership::{lemma_owned_iff_owner, tokens_owned};
use crate::table::keys_of;

verus! {

/// Where a page starts in a list of `len` items: at `from_index`, at the
/// front where none is given, and at the end where `from_index` lies beyond
/// it.
pub open spec fn page_start(len: nat, from_index: Option<u64>) -> nat {
    match from_index {
        Some(from) => if from <= len {
            from as nat
        } else {
            len
        },
        None => 0,
    }
}

/// Where a page ends in a list of `len` items: `limit` items after its start,
/// or at the end of the list where that comes first or no limit is given.
pub open spec fn page_end(len: nat, from_index: Option<u64>, limit: Option<u64>) -> nat {
    let start = page_start(len, from_index);
    match limit {
        Some(count) => if start + count <= len {
            (start + count) as nat
        } else {
            len
        },
        None => len,
    }
}

/// The tokens with the ids `ids[start..end]`, as `ledger` hands them out.
pub open spec fn page_of(ledger: LedgerView, ids: Seq<Seq<char>>, start: nat, end: nat) -> Seq<
    TokenView,
> {
    Seq::new((end - start) as nat, |i: int| ledger.token(ids[start + i]).unwrap())
}

impl LedgerView {
    /// One page of all live tokens.
    pub open spec fn tokens_page(self, from_index: Option<u64>, limit: Option<u64>) -> Seq<
        TokenView,
    > {
        page_of(
            self,
            keys_of(self.holdings),
            page_start(self.holdings.len(), from_index),
            page_end(self.holdings.len(), from_index, limit),
        )
    }

    /// One page of the tokens of `owner`.
    pub open spec fn owner_page(
        self,
        owner: Seq<char>,
        from_index: Option<u64>,
        limit: Option<u64>,
    ) -> Seq<TokenView> {
        let ids = tokens_owned(self.holdings, owner);
        page_of(self, ids, page_start(ids.len(), from_index), page_end(ids.len(), from_index, limit))
    }
}

/// The tokens listed for an owner are the tokens that belong to that owner:
/// the whole list names each of them once, in the order of the ledger, and
/// every token listed names that owner as its own.
pub proof fn lemma_owner_page_lists_owned(s: LedgerView, owner: Seq<char>)
    requires
        s.wf(),
    ensures
        s.owner_page(owner, None, None).len() == tokens_owned(s.holdings, owner).len(),
        forall|i: int|
            0 <= i < tokens_owned(s.holdings, owner).len() ==> (#[trigger] s.owner_page(
                owner,
                None,
                None,
            )[i]).token_id == tokens_owned(s.holdings, owner)[i] && s.owner_page(
                owner,
                None,
                None,
            )[i].owner_id == owner,
        forall|token: Seq<char>|
            s.owner_of(token) == Some(owner) <==> #[trigger] tokens_owned(
                s.holdings,
                owner,
            ).contains(token),
{
    let ids = tokens_owned(s.holdings, owner);
    assert forall|i: int| 0 <= i < ids.len() implies (#[trigger] s.owner_page(
        owner,
        None,
        None,
    )[i]).token_id == ids[i] && s.owner_page(owner, None, None)[i].owner_id == owner by {
        lemma_owned_iff_owner(s.holdings, owner, ids[i]);
    }
    assert forall|token: Seq<char>|
        s.owner_of(token) == Some(owner) <==> #[trigger] ids.contains(token) by {
        lemma_owned_iff_owner(s.holdings, owner, token);
    }
}

/// The bounds of a page in a list of `len` items.
fn page_bounds(len: usize, from_index: Option<u64>, limit: Option<u64>) -> (bounds: (usize, usize))
    ensures
        bounds.0 == page_start(len as nat, from_index),
        bounds.1 == page_end(len as nat, from_index, limit),
        bounds.0 <= bounds.1 <= len,
{
    let start: usize = match from_index {
        Some(from) => if from <= len as u64 {
            from as usize
        } else {
            len
        },
        None => 0,
    };
    let end: usize = match limit {
        Some(count) => if count <= (len - start) as u64 {
            start + count as usize
        } else {
            len
        },
        None => len,
    };
    (start, end)
}

/// A read-only view of a ledger for listing its tokens.
pub struct EnumerationView<'a> {
    ledger: &'a TokenLedger,
}

impl<'a> EnumerationView<'a> {
    /// What the ledger under this view holds.
    pub closed spec fn ledger(&self) -> LedgerView {
        self.ledger@
    }

    /// The ledger under this view is well-formed.
    pub closed spec fn wf(&self) -> bool {
        self.ledger.wf()
    }

    /// A view of `ledger`.
    pub fn new(ledger: &'a TokenLedger) -> (view: Self)
        requires
            ledger.wf(),
        ensures
            view.wf(),
            view.ledger() == ledger@,
    {
        EnumerationView { ledger }
    }

    /// The number of live tokens.
    pub fn total_supply(&self) -> (count: usize)
        ensures
            count == self.ledger().total_supply(),
    {
        self.ledger.total_supply()
    }

    /// One page of all live tokens, in the order in which they were minted.
    pub fn tokens(&self, from_index: Option<u64>, limit: Option<u64>) -> (page: Vec<Token>)
        requires
            self.wf(),
        ensures
            token_views(page@) == self.ledger().tokens_page(from_index, limit),
    {
        let len = self.ledger.total_supply();
        let (start, end) = page_bounds(len, from_index, limit);
        let ghost ids = keys_of(self.ledger@.holdings);
        let mut page: Vec<Token> = Vec::new();
        let mut i: usize = start;
        while i < end
            invariant
                start <= i <= end <= len,
                len == self.ledger@.holdings.len(),
                self.ledger.wf(),
                ids == keys_of(self.ledger@.holdings),
                page@.len() == i - start,
                token_views(page@) == page_of(self.ledger@, ids, start as nat, i as nat),
            decreases end - i,
        {
            let ghost before = page@;
            let token = self.ledger.token_at(i);
            page.push(token);
            proof {
                assert forall|k: int| 0 <= k < i + 1 - start implies token_views(page@)[k]
                    == page_of(self.ledger@, ids, start as nat, (i + 1) as nat)[k] by {
                    if k < i - start {
                        assert(token_views(before)[k] == page_of(
                            self.ledger@,
                            ids,
                            start as nat,
                            i as nat,
                        )[k]);
                    }
                }
                assert(token_views(page@) =~= page_of(
                    self.ledger@,
                    ids,
                    start as nat,
                    (i + 1) as nat,
                ));
            }
            i += 1;
        }
        page
    }

    /// One page of the tokens of `owner`, in the order in which they were
    /// minted.
    pub fn tokens_for_owner(
        &self,
        owner: &String,
        from_index: Option<u64>,
        limit: Option<u64>,
    ) -> (page: Vec<Token>)
        requires
            self.wf(),
        ensures
            token_views(page@) == self.ledger().owner_page(owner@, from_index, limit),
    {
        let owned = self.ledger.token_ids_of(owner);
        let len = owned.len();
        let (start, end) = page_bounds(len, from_index, limit);
        let ghost ids = tokens_owned(self.ledger@.holdings, owner@);
        let mut page: Vec<Token> = Vec::new();
        let mut i: usize = start;
        while i < end
            invariant
                start <= i <= end <= len,
                len == owned@.len(),
                self.ledger.wf(),
                ids == tokens_owned(self.ledger@.holdings, owner@),
                ids == text_views(owned@),
                page@.len() == i - start,
                token_views(page@) == page_of(self.ledger@, ids, start as nat, i as nat),
            decreases end - i,
        {
            let ghost before = page@;
            proof {
                self.ledger.lemma_wf();
                lemma_owned_iff_owner(self.ledger@.holdings, owner@, ids[i as int]);
            }
            match self.ledger.token(&owned[i]) {
                Some(token) => {
                    page.push(token);
                },
                None => {
                    proof {
                        assert(false);
                    }
                },
            }
            proof {
                assert forall|k: int| 0 <= k < i + 1 - start implies token_views(page@)[k]
                    == page_of(self.ledger@, ids, start as nat, (i + 1) as nat)[k] by {
                    if k < i - start {
                        assert(token_views(before)[k] == page_of(
                            self.ledger@,
                            ids,
                            start as nat,
                            i as nat,
                        )[k]);
                    }
                }
                assert(token_views(page@) =~= page_of(
                    self.ledger@,
                    ids,
                    start as nat,
                    (i + 1) as nat,
                ));
            }
            i += 1;
        }
        page
    }
}

} // verus!
