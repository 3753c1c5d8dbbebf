//! What a ledger holds, and what each call checks and changes.
//!
//! The state is modelled by three tables: the live tokens with their owners,
//! the data of the tokens that have any, and the approvals by token. For each
//! call there is a function that says why the call is refused, if it is, and
//! one that gives the state after the call.

use vstd::prelude::*;
use crate::approval::{
    approval_bytes, grant_weight, grants_bytes, lemma_registry_wf_kept, lemma_set_of_wf,
    registry_bytes, registry_wf, set_of, set_weight, ApprovalSetView,
};
use crate::error::LedgerError;
use crate::layout::{lemma_weigh_empty, text_bytes, weigh, WORD_BYTES};
use crate::metadata::TokenMetadataView;
use crate::ownership::{
    holding_bytes, holding_weight, holdings_bytes, lemma_owned_iff_owner, tokens_owned,
};
use crate::storage::spec_settlement;
use crate::table::{
    distinct_keys, has_key, lemma_with_row, lemma_without_row, lookup, row_weight, with_row,
    without_row,
};

verus! {

/// What a `Token` holds.
pub ghost struct TokenView {
    pub token_id: Seq<char>,
    pub owner_id: Seq<char>,
    pub metadata: Option<TokenMetadataView>,
    pub approvals: Seq<(Seq<char>, u64)>,
}

/// Accounted size of the data of one token, with the token's id.
pub open spec fn metadata_row_bytes(row: (Seq<char>, TokenMetadataView)) -> nat {
    text_bytes(row.0) + row.1.bytes()
}

/// The weight by which token data is accounted.
pub open spec fn metadata_weight() -> spec_fn((Seq<char>, TokenMetadataView)) -> nat {
    |row: (Seq<char>, TokenMetadataView)| metadata_row_bytes(row)
}

/// What a ledger holds.
pub ghost struct LedgerView {
    /// Who may mint.
    pub minter: Seq<char>,
    /// Whether a token must be minted with data.
    pub metadata_required: bool,
    /// The live tokens with their owners, in the order in which they were
    /// minted.
    pub holdings: Seq<(Seq<char>, Seq<char>)>,
    /// The data of the tokens that have any.
    pub metadata: Seq<(Seq<char>, TokenMetadataView)>,
    /// The approvals, by token.
    pub approvals: Seq<(Seq<char>, ApprovalSetView)>,
    /// The ids of the tokens that were burned.
    pub retired: Set<Seq<char>>,
}

impl LedgerView {
    /// The accounted size of the state: owners, token data and approvals.
    /// The ids of burned tokens are not accounted.
    pub open spec fn bytes(self) -> nat {
        holdings_bytes(self.holdings) + weigh(self.metadata, metadata_weight()) + registry_bytes(
            self.approvals,
        )
    }

    /// Each token has one owner; data and approvals belong to live tokens
    /// only; no live token has the id of a burned one; the accounted size fits
    /// in 64 bits.
    pub open spec fn wf(self) -> bool {
        &&& distinct_keys(self.holdings)
        &&& distinct_keys(self.metadata)
        &&& registry_wf(self.approvals)
        &&& forall|t: Seq<char>| #[trigger] has_key(self.metadata, t) ==> has_key(self.holdings, t)
        &&& forall|t: Seq<char>| #[trigger]
            has_key(self.approvals, t) ==> has_key(self.holdings, t)
        &&& forall|t: Seq<char>| #[trigger] self.retired.contains(t) ==> !has_key(self.holdings, t)
        &&& self.bytes() <= u64::MAX
    }

    /// Whether `token` is a live token.
    pub open spec fn is_live(self, token: Seq<char>) -> bool {
        has_key(self.holdings, token)
    }

    /// The owner of `token`, if it is live.
    pub open spec fn owner_of(self, token: Seq<char>) -> Option<Seq<char>> {
        lookup(self.holdings, token)
    }

    /// The approvals that stand on `token`, oldest first.
    pub open spec fn grants_of(self, token: Seq<char>) -> Seq<(Seq<char>, u64)> {
        set_of(self.approvals, token).grants
    }

    /// Whether `delegate` is approved on the live token `token`, under
    /// `approval_id` if one is given.
    pub open spec fn is_approved(
        self,
        token: Seq<char>,
        delegate: Seq<char>,
        approval_id: Option<u64>,
    ) -> bool {
        self.is_live(token) && set_of(self.approvals, token).approves(delegate, approval_id)
    }

    /// The token `token` as it is handed out, if it is live.
    pub open spec fn token(self, token: Seq<char>) -> Option<TokenView> {
        match lookup(self.holdings, token) {
            Some(owner) => Some(
                TokenView {
                    token_id: token,
                    owner_id: owner,
                    metadata: lookup(self.metadata, token),
                    approvals: self.grants_of(token),
                },
            ),
            None => None,
        }
    }

    /// The number of live tokens.
    pub open spec fn total_supply(self) -> nat {
        self.holdings.len()
    }

    /// Why a call of `mint` is refused, if it is. The checks come in this
    /// order: the caller, the id, the data, the room for the new state, the
    /// deposit.
    pub open spec fn mint_refusal(
        self,
        caller: Seq<char>,
        attached: u128,
        byte_cost: u128,
        token: Seq<char>,
        owner: Seq<char>,
        metadata: Option<TokenMetadataView>,
    ) -> Option<LedgerError> {
        if caller != self.minter {
            Some(LedgerError::Unauthorized)
        } else if self.is_live(token) || self.retired.contains(token) {
            Some(LedgerError::DuplicateToken)
        } else if self.metadata_required && metadata.is_none() {
            Some(LedgerError::InvalidMetadata)
        } else if self.bytes() + mint_bytes(token, owner, metadata) > u64::MAX {
            Some(LedgerError::ResourceExhausted)
        } else {
            match spec_settlement(byte_cost, attached, mint_bytes(token, owner, metadata) as int) {
                Ok(_) => None,
                Err(e) => Some(e),
            }
        }
    }

    /// The state after `token` was minted to `owner` with `metadata`.
    pub open spec fn minted(
        self,
        token: Seq<char>,
        owner: Seq<char>,
        metadata: Option<TokenMetadataView>,
    ) -> LedgerView {
        LedgerView {
            holdings: with_row(self.holdings, token, owner),
            metadata: match metadata {
                Some(m) => with_row(self.metadata, token, m),
                None => self.metadata,
            },
            ..self
        }
    }
}

impl LedgerView {
    /// Why `caller` may not move `token`, if it may not: the owner may; a
    /// delegate may under the approval id it holds, or without stating one.
    pub open spec fn transfer_authority(
        self,
        caller: Seq<char>,
        token: Seq<char>,
        approval_id: Option<u64>,
    ) -> Option<LedgerError> {
        if self.owner_of(token) == Some(caller) {
            None
        } else {
            match approval_id {
                Some(id) => if lookup(self.grants_of(token), caller) == Some(id) {
                    None
                } else {
                    Some(LedgerError::InvalidApproval)
                },
                None => if has_key(self.grants_of(token), caller) {
                    None
                } else {
                    Some(LedgerError::Unauthorized)
                },
            }
        }
    }

    /// The bytes by which moving `token` to `receiver` changes the state: the
    /// owner's name gives way to the receiver's, and the approvals go.
    pub open spec fn transfer_delta(self, token: Seq<char>, receiver: Seq<char>) -> int {
        match self.owner_of(token) {
            Some(owner) => text_bytes(receiver) - text_bytes(owner) - grants_bytes(
                self.grants_of(token),
            ),
            None => 0,
        }
    }

    /// Why a call of `transfer` is refused, if it is. The checks come in this
    /// order: the token, the stated sender, the caller's right, the receiver,
    /// the least deposit (the price of one byte), the room for the new state,
    /// the deposit.
    pub open spec fn transfer_refusal(
        self,
        caller: Seq<char>,
        attached: u128,
        byte_cost: u128,
        token: Seq<char>,
        sender: Seq<char>,
        receiver: Seq<char>,
        approval_id: Option<u64>,
    ) -> Option<LedgerError> {
        match self.owner_of(token) {
            None => Some(LedgerError::TokenNotFound),
            Some(owner) => if sender != owner {
                Some(LedgerError::SenderMismatch)
            } else if self.transfer_authority(caller, token, approval_id).is_some() {
                self.transfer_authority(caller, token, approval_id)
            } else if receiver == owner {
                Some(LedgerError::SelfTransferNoop)
            } else if attached < byte_cost {
                Some(LedgerError::InsufficientDeposit)
            } else if self.bytes() + self.transfer_delta(token, receiver) > u64::MAX {
                Some(LedgerError::ResourceExhausted)
            } else {
                match spec_settlement(byte_cost, attached, self.transfer_delta(token, receiver)) {
                    Ok(_) => None,
                    Err(e) => Some(e),
                }
            },
        }
    }

    /// The state after `token` went to `receiver`: the approvals on it are
    /// gone, its counter of approval ids stays.
    pub open spec fn transferred(self, token: Seq<char>, receiver: Seq<char>) -> LedgerView {
        LedgerView {
            holdings: with_row(self.holdings, token, receiver),
            approvals: if has_key(self.approvals, token) {
                with_row(self.approvals, token, set_of(self.approvals, token).cleared())
            } else {
                self.approvals
            },
            ..self
        }
    }
}

/// A transfer keeps the state well-formed and changes its size by the
/// transfer's delta. Afterwards the token belongs to the receiver and stands
/// among the receiver's tokens, not among the former owner's; no approval on
/// it stands; its counter of approval ids is where it was; no other token has
/// changed.
pub proof fn lemma_transferred(s: LedgerView, token: Seq<char>, receiver: Seq<char>)
    requires
        s.wf(),
        s.is_live(token),
        s.bytes() + s.transfer_delta(token, receiver) <= u64::MAX,
    ensures
        s.transferred(token, receiver).wf(),
        s.transferred(token, receiver).bytes() == s.bytes() + s.transfer_delta(token, receiver),
        s.transferred(token, receiver).owner_of(token) == Some(receiver),
        s.transferred(token, receiver).holdings.len() == s.holdings.len(),
        tokens_owned(s.transferred(token, receiver).holdings, receiver).contains(token),
        forall|owner: Seq<char>|
            owner != receiver ==> !(#[trigger] tokens_owned(
                s.transferred(token, receiver).holdings,
                owner,
            )).contains(token),
        s.transferred(token, receiver).grants_of(token) == Seq::<(Seq<char>, u64)>::empty(),
        forall|delegate: Seq<char>, approval_id: Option<u64>|
            !(#[trigger] s.transferred(token, receiver).is_approved(token, delegate, approval_id)),
        set_of(s.transferred(token, receiver).approvals, token).next_id == set_of(
            s.approvals,
            token,
        ).next_id,
        forall|t: Seq<char>|
            t != token ==> #[trigger] s.transferred(token, receiver).token(t) == s.token(t),
        forall|t: Seq<char>|
            #[trigger] s.transferred(token, receiver).is_live(t) == s.is_live(t),
{
    let after = s.transferred(token, receiver);
    let set = set_of(s.approvals, token);
    lemma_with_row(s.holdings, token, receiver, holding_weight());
    lemma_set_of_wf(s.approvals, token);
    lemma_weigh_empty(grant_weight());
    if has_key(s.approvals, token) {
        lemma_with_row(s.approvals, token, set.cleared(), set_weight());
        lemma_registry_wf_kept(s.approvals, token, set.cleared());
    }
    assert forall|owner: Seq<char>| owner != receiver implies !(#[trigger] tokens_owned(
        after.holdings,
        owner,
    )).contains(token) by {
        lemma_owned_iff_owner(after.holdings, owner, token);
    }
    lemma_owned_iff_owner(after.holdings, receiver, token);
}

impl LedgerView {
    /// The bytes that burning `token` sets free: its owner, its data and its
    /// approvals.
    pub open spec fn burn_bytes(self, token: Seq<char>) -> nat {
        row_weight(self.holdings, token, holding_weight()) + row_weight(
            self.metadata,
            token,
            metadata_weight(),
        ) + row_weight(self.approvals, token, set_weight())
    }

    /// Why a call of `burn` is refused, if it is: the token must be live, and
    /// the caller must be the stated owner and own the token.
    pub open spec fn burn_refusal(
        self,
        caller: Seq<char>,
        attached: u128,
        byte_cost: u128,
        token: Seq<char>,
        owner: Seq<char>,
    ) -> Option<LedgerError> {
        match self.owner_of(token) {
            None => Some(LedgerError::TokenNotFound),
            Some(current) => if caller != owner || owner != current {
                Some(LedgerError::Unauthorized)
            } else {
                match spec_settlement(byte_cost, attached, -(self.burn_bytes(token) as int)) {
                    Ok(_) => None,
                    Err(e) => Some(e),
                }
            },
        }
    }

    /// The state after `token` was burned: nothing of it is left but its id
    /// among the burned ones.
    pub open spec fn burned(self, token: Seq<char>) -> LedgerView {
        LedgerView {
            holdings: without_row(self.holdings, token),
            metadata: without_row(self.metadata, token),
            approvals: without_row(self.approvals, token),
            retired: self.retired.insert(token),
            ..self
        }
    }

    /// The bytes by which approving `delegate` on `token` grows the state:
    /// the token's row of approvals if it has none yet, and the approval
    /// unless the delegate holds one already.
    pub open spec fn approve_bytes(self, token: Seq<char>, delegate: Seq<char>) -> nat {
        (if has_key(self.approvals, token) {
            0
        } else {
            text_bytes(token) + WORD_BYTES as nat
        }) + (if has_key(self.grants_of(token), delegate) {
            0
        } else {
            approval_bytes(delegate)
        })
    }

    /// Why a call of `approve` is refused, if it is. The checks come in this
    /// order: the token, the caller, the counter of approval ids, the room for
    /// the new state, the deposit.
    pub open spec fn approve_refusal(
        self,
        caller: Seq<char>,
        attached: u128,
        byte_cost: u128,
        token: Seq<char>,
        delegate: Seq<char>,
    ) -> Option<LedgerError> {
        match self.owner_of(token) {
            None => Some(LedgerError::TokenNotFound),
            Some(owner) => if caller != owner {
                Some(LedgerError::Unauthorized)
            } else if set_of(self.approvals, token).next_id == u64::MAX {
                Some(LedgerError::ResourceExhausted)
            } else if self.bytes() + self.approve_bytes(token, delegate) > u64::MAX {
                Some(LedgerError::ResourceExhausted)
            } else {
                match spec_settlement(
                    byte_cost,
                    attached,
                    self.approve_bytes(token, delegate) as int,
                ) {
                    Ok(_) => None,
                    Err(e) => Some(e),
                }
            },
        }
    }

    /// The state after `delegate` was approved on `token` under the token's
    /// next approval id.
    pub open spec fn approved(self, token: Seq<char>, delegate: Seq<char>) -> LedgerView {
        LedgerView {
            approvals: with_row(
                self.approvals,
                token,
                set_of(self.approvals, token).approved(delegate),
            ),
            ..self
        }
    }

    /// Why a call of `revoke` is refused, if it is. The checks come in this
    /// order: the token, the caller, the approval, the refund.
    pub open spec fn revoke_refusal(
        self,
        caller: Seq<char>,
        attached: u128,
        byte_cost: u128,
        token: Seq<char>,
        delegate: Seq<char>,
    ) -> Option<LedgerError> {
        match self.owner_of(token) {
            None => Some(LedgerError::TokenNotFound),
            Some(owner) => if caller != owner {
                Some(LedgerError::Unauthorized)
            } else if !has_key(self.grants_of(token), delegate) {
                Some(LedgerError::ApprovalNotFound)
            } else {
                match spec_settlement(byte_cost, attached, -(approval_bytes(delegate) as int)) {
                    Ok(_) => None,
                    Err(e) => Some(e),
                }
            },
        }
    }

    /// The state after the approval of `delegate` on `token` was taken away.
    pub open spec fn revoked(self, token: Seq<char>, delegate: Seq<char>) -> LedgerView {
        LedgerView {
            approvals: with_row(
                self.approvals,
                token,
                set_of(self.approvals, token).revoked(delegate),
            ),
            ..self
        }
    }

    /// Why a call of `revoke_all` is refused, if it is. The checks come in
    /// this order: the token, the caller, the refund.
    pub open spec fn revoke_all_refusal(
        self,
        caller: Seq<char>,
        attached: u128,
        byte_cost: u128,
        token: Seq<char>,
    ) -> Option<LedgerError> {
        match self.owner_of(token) {
            None => Some(LedgerError::TokenNotFound),
            Some(owner) => if caller != owner {
                Some(LedgerError::Unauthorized)
            } else {
                match spec_settlement(
                    byte_cost,
                    attached,
                    -(grants_bytes(self.grants_of(token)) as int),
                ) {
                    Ok(_) => None,
                    Err(e) => Some(e),
                }
            },
        }
    }

    /// The state after all approvals on `token` were taken away. The token's
    /// counter of approval ids stays.
    pub open spec fn revoked_all(self, token: Seq<char>) -> LedgerView {
        LedgerView {
            approvals: if has_key(self.approvals, token) {
                with_row(self.approvals, token, set_of(self.approvals, token).cleared())
            } else {
                self.approvals
            },
            ..self
        }
    }
}

/// Burning a live token keeps the state well-formed and shrinks it by the
/// bytes of the token. The token is then gone and its id is retired; no other
/// token has changed.
pub proof fn lemma_burned(s: LedgerView, token: Seq<char>)
    requires
        s.wf(),
        s.is_live(token),
    ensures
        s.burned(token).wf(),
        s.burned(token).bytes() + s.burn_bytes(token) == s.bytes(),
        !s.burned(token).is_live(token),
        s.burned(token).token(token).is_none(),
        s.burned(token).retired.contains(token),
        s.burned(token).holdings.len() + 1 == s.holdings.len(),
        forall|t: Seq<char>| t != token ==> #[trigger] s.burned(token).token(t) == s.token(t),
{
    lemma_without_row(s.holdings, token, holding_weight());
    lemma_without_row(s.metadata, token, metadata_weight());
    lemma_without_row(s.approvals, token, set_weight());
    lemma_set_of_wf(s.approvals, token);
    lemma_registry_wf_kept(s.approvals, token, set_of(s.approvals, token));
}

/// An approval keeps the state well-formed and grows it by the bytes of the
/// approval. The delegate is then approved under the id that the token's
/// counter stood at, and under no other; the counter has grown by one; owners
/// and token data are as they were.
pub proof fn lemma_approved(s: LedgerView, token: Seq<char>, delegate: Seq<char>)
    requires
        s.wf(),
        s.is_live(token),
        set_of(s.approvals, token).next_id < u64::MAX,
        s.bytes() + s.approve_bytes(token, delegate) <= u64::MAX,
    ensures
        s.approved(token, delegate).wf(),
        s.approved(token, delegate).bytes() == s.bytes() + s.approve_bytes(token, delegate),
        lookup(s.approved(token, delegate).grants_of(token), delegate) == Some(
            set_of(s.approvals, token).next_id,
        ),
        s.approved(token, delegate).is_approved(
            token,
            delegate,
            Some(set_of(s.approvals, token).next_id),
        ),
        set_of(s.approved(token, delegate).approvals, token).next_id == set_of(
            s.approvals,
            token,
        ).next_id + 1,
        forall|d: Seq<char>|
            d != delegate ==> #[trigger] lookup(s.approved(token, delegate).grants_of(token), d)
                == lookup(s.grants_of(token), d),
        forall|t: Seq<char>|
            t != token ==> #[trigger] s.approved(token, delegate).token(t) == s.token(t),
{
    let set = set_of(s.approvals, token);
    let next = set.approved(delegate);
    lemma_set_of_wf(s.approvals, token);
    lemma_with_row(set.grants, delegate, set.next_id, grant_weight());
    lemma_with_row(s.approvals, token, next, set_weight());
    lemma_registry_wf_kept(s.approvals, token, next);
    lemma_weigh_empty(grant_weight());
}

/// Taking an approval away keeps the state well-formed and shrinks it by the
/// bytes of the approval. The delegate is no longer approved; the other
/// approvals and the token's counter are as they were.
pub proof fn lemma_revoked(s: LedgerView, token: Seq<char>, delegate: Seq<char>)
    requires
        s.wf(),
        s.is_live(token),
        has_key(s.grants_of(token), delegate),
    ensures
        s.revoked(token, delegate).wf(),
        s.revoked(token, delegate).bytes() + approval_bytes(delegate) == s.bytes(),
        !has_key(s.revoked(token, delegate).grants_of(token), delegate),
        forall|approval_id: Option<u64>|
            !(#[trigger] s.revoked(token, delegate).is_approved(token, delegate, approval_id)),
        set_of(s.revoked(token, delegate).approvals, token).next_id == set_of(
            s.approvals,
            token,
        ).next_id,
        forall|d: Seq<char>|
            d != delegate ==> #[trigger] lookup(s.revoked(token, delegate).grants_of(token), d)
                == lookup(s.grants_of(token), d),
        forall|t: Seq<char>|
            t != token ==> #[trigger] s.revoked(token, delegate).token(t) == s.token(t),
{
    let set = set_of(s.approvals, token);
    let next = set.revoked(delegate);
    lemma_set_of_wf(s.approvals, token);
    lemma_without_row(set.grants, delegate, grant_weight());
    lemma_with_row(s.approvals, token, next, set_weight());
    lemma_registry_wf_kept(s.approvals, token, next);
}

/// Taking all approvals away keeps the state well-formed and shrinks it by
/// their bytes. No delegate is approved on the token afterwards; the token's
/// counter is as it was.
pub proof fn lemma_revoked_all(s: LedgerView, token: Seq<char>)
    requires
        s.wf(),
        s.is_live(token),
    ensures
        s.revoked_all(token).wf(),
        s.revoked_all(token).bytes() + grants_bytes(s.grants_of(token)) == s.bytes(),
        s.revoked_all(token).grants_of(token) == Seq::<(Seq<char>, u64)>::empty(),
        forall|delegate: Seq<char>, approval_id: Option<u64>|
            !(#[trigger] s.revoked_all(token).is_approved(token, delegate, approval_id)),
        set_of(s.revoked_all(token).approvals, token).next_id == set_of(
            s.approvals,
            token,
        ).next_id,
        forall|t: Seq<char>| t != token ==> #[trigger] s.revoked_all(token).token(t) == s.token(t),
{
    let set = set_of(s.approvals, token);
    lemma_set_of_wf(s.approvals, token);
    lemma_weigh_empty(grant_weight());
    if has_key(s.approvals, token) {
        lemma_with_row(s.approvals, token, set.cleared(), set_weight());
        lemma_registry_wf_kept(s.approvals, token, set.cleared());
    }
}

impl LedgerView {
    /// The bytes by which giving `token` back to `previous_owner` with
    /// `grants` as its approvals changes the state.
    pub open spec fn revert_delta(
        self,
        token: Seq<char>,
        previous_owner: Seq<char>,
        grants: Seq<(Seq<char>, u64)>,
    ) -> int {
        match self.owner_of(token) {
            Some(owner) => text_bytes(previous_owner) - text_bytes(owner) + grants_bytes(grants)
                - grants_bytes(self.grants_of(token)) + (if has_key(self.approvals, token)
                || grants.len() == 0 {
                0
            } else {
                text_bytes(token) + WORD_BYTES as nat
            }),
            None => 0,
        }
    }

    /// Whether a transfer of `token` to `receiver` can be undone: the
    /// receiver still owns the token, `grants` can stand as its approvals, and
    /// there is room for the state that comes back.
    pub open spec fn revertible(
        self,
        token: Seq<char>,
        previous_owner: Seq<char>,
        receiver: Seq<char>,
        grants: Seq<(Seq<char>, u64)>,
    ) -> bool {
        &&& self.owner_of(token) == Some(receiver)
        &&& set_of(self.approvals, token).with_grants(grants).wf()
        &&& self.bytes() + self.revert_delta(token, previous_owner, grants) <= u64::MAX
    }

    /// The state after `token` went back to `previous_owner` with `grants` as
    /// its approvals. The token's counter of approval ids stays.
    pub open spec fn reverted(
        self,
        token: Seq<char>,
        previous_owner: Seq<char>,
        grants: Seq<(Seq<char>, u64)>,
    ) -> LedgerView {
        LedgerView {
            holdings: with_row(self.holdings, token, previous_owner),
            approvals: if has_key(self.approvals, token) || grants.len() > 0 {
                with_row(
                    self.approvals,
                    token,
                    set_of(self.approvals, token).with_grants(grants),
                )
            } else {
                self.approvals
            },
            ..self
        }
    }
}

/// Undoing a transfer that can be undone keeps the state well-formed and
/// changes its size by the delta of the undoing.
pub proof fn lemma_reverted(
    s: LedgerView,
    token: Seq<char>,
    previous_owner: Seq<char>,
    receiver: Seq<char>,
    grants: Seq<(Seq<char>, u64)>,
)
    requires
        s.wf(),
        s.revertible(token, previous_owner, receiver, grants),
    ensures
        s.reverted(token, previous_owner, grants).wf(),
        s.reverted(token, previous_owner, grants).bytes() == s.bytes() + s.revert_delta(
            token,
            previous_owner,
            grants,
        ),
        s.reverted(token, previous_owner, grants).owner_of(token) == Some(previous_owner),
        s.reverted(token, previous_owner, grants).grants_of(token) == grants,
{
    let set = set_of(s.approvals, token);
    lemma_with_row(s.holdings, token, previous_owner, holding_weight());
    lemma_weigh_empty(grant_weight());
    if has_key(s.approvals, token) || grants.len() > 0 {
        lemma_with_row(s.approvals, token, set.with_grants(grants), set_weight());
        lemma_registry_wf_kept(s.approvals, token, set.with_grants(grants));
    }
}

/// The bytes by which minting a token grows the state.
pub open spec fn mint_bytes(
    token: Seq<char>,
    owner: Seq<char>,
    metadata: Option<TokenMetadataView>,
) -> nat {
    holding_bytes((token, owner)) + match metadata {
        Some(m) => metadata_row_bytes((token, m)),
        None => 0,
    }
}

/// Minting a fresh token keeps the state well-formed and grows it by the
/// bytes of the token. The token then belongs to the owner it was minted to,
/// and stands among that owner's tokens.
pub proof fn lemma_minted(
    s: LedgerView,
    token: Seq<char>,
    owner: Seq<char>,
    metadata: Option<TokenMetadataView>,
)
    requires
        s.wf(),
        !s.is_live(token),
        !s.retired.contains(token),
        s.bytes() + mint_bytes(token, owner, metadata) <= u64::MAX,
    ensures
        s.minted(token, owner, metadata).wf(),
        s.minted(token, owner, metadata).bytes() == s.bytes() + mint_bytes(token, owner, metadata),
        s.minted(token, owner, metadata).holdings == s.holdings.push((token, owner)),
        s.minted(token, owner, metadata).owner_of(token) == Some(owner),
        s.minted(token, owner, metadata).token(token) == Some(
            TokenView { token_id: token, owner_id: owner, metadata, approvals: Seq::empty() },
        ),
        tokens_owned(s.minted(token, owner, metadata).holdings, owner).contains(token),
        forall|t: Seq<char>|
            t != token ==> #[trigger] s.minted(token, owner, metadata).token(t) == s.token(t),
{
    let after = s.minted(token, owner, metadata);
    lemma_with_row(s.holdings, token, owner, holding_weight());
    match metadata {
        Some(m) => {
            lemma_with_row(s.metadata, token, m, metadata_weight());
        },
        None => {},
    }
    lemma_owned_iff_owner(after.holdings, owner, token);
}

} // verus!
