//! The contract: a token ledger together with the contract's own descriptive
//! data, and one function for each call that the contract answers.

use vstd::prelude::*;
use crate::approval::{approval_bytes, approval_views, grants_bytes, set_of};
use crate::enumeration::EnumerationView;
use crate::error::LedgerError;
use crate::layout::opt_text_view;
use crate::table::lookup;
use crate::ledger::{
    token_views, ApproveReceipt, BurnReceipt, CallContext, HookVerdict, LedgerSnapshot,
    MintReceipt, PendingTransfer, RevokeReceipt, Token, TokenLedger, TransferReceipt,
    TransferResolution,
};
use crate::model::{mint_bytes, LedgerView, TokenView};
use crate::metadata::{ContractMetadata, ContractMetadataView, TokenMetadata, TokenMetadataView};
use crate::storage::{spec_settlement, Settlement};

verus! {

/// What a contract holds.
pub ghost struct ContractView {
    /// The token ledger.
    pub tokens: LedgerView,
    /// The descriptive data of the contract.
    pub metadata: ContractMetadataView,
}

impl ContractView {
    /// The ledger is well-formed and asks for data with every token; the
    /// contract's own data keeps the rules for its fields.
    pub open spec fn wf(self) -> bool {
        &&& self.tokens.wf()
        &&& self.tokens.metadata_required
        &&& self.metadata.valid()
    }

    /// The contract as `new` makes it.
    pub open spec fn fresh(owner: Seq<char>, metadata: ContractMetadataView) -> ContractView {
        ContractView {
            tokens: LedgerView {
                minter: owner,
                metadata_required: true,
                holdings: Seq::empty(),
                metadata: Seq::empty(),
                approvals: Seq::empty(),
                retired: Set::empty(),
            },
            metadata,
        }
    }

    /// The account from which a call moves `token`: its owner, or the caller
    /// where the token is not live.
    pub open spec fn sender_for(self, caller: Seq<char>, token: Seq<char>) -> Seq<char> {
        match self.tokens.owner_of(token) {
            Some(owner) => owner,
            None => caller,
        }
    }
}

/// The whole state of a contract as it is stored.
#[derive(Clone, Debug, PartialEq, Eq)]
pub struct ContractSnapshot {
    /// The token ledger.
    pub tokens: LedgerSnapshot,
    /// The descriptive data of the contract.
    pub metadata: ContractMetadata,
}

impl View for ContractSnapshot {
    type V = ContractView;

    open spec fn view(&self) -> ContractView {
        ContractView { tokens: self.tokens@, metadata: self.metadata@ }
    }
}

/// What `nft_mint` does: refused, it says why and changes nothing; else the
/// token is minted and the receipt tells the token, the bytes added and how
/// the deposit was split.
pub open spec fn is_mint_outcome(
    before: ContractView,
    after: ContractView,
    ctx: CallContext,
    token_id: Seq<char>,
    owner_id: Seq<char>,
    metadata: TokenMetadataView,
    receipt: Result<MintReceipt, LedgerError>,
) -> bool {
    let refusal = before.tokens.mint_refusal(
        ctx.caller@,
        ctx.attached_deposit,
        ctx.byte_cost,
        token_id,
        owner_id,
        Some(metadata),
    );
    &&& after.metadata == before.metadata
    &&& match receipt {
        Ok(r) => {
            &&& refusal.is_none()
            &&& after.tokens == before.tokens.minted(token_id, owner_id, Some(metadata))
            &&& r.token@ == (TokenView {
                token_id,
                owner_id,
                metadata: Some(metadata),
                approvals: Seq::empty(),
            })
            &&& r.bytes_added == mint_bytes(token_id, owner_id, Some(metadata))
            &&& Ok::<Settlement, LedgerError>(r.settlement) == spec_settlement(
                ctx.byte_cost,
                ctx.attached_deposit,
                r.bytes_added as int,
            )
        },
        Err(e) => refusal == Some(e) && after == before,
    }
}

/// What `nft_transfer` does: refused, it says why and changes nothing; else
/// the token goes to the receiver and the receipt tells the former owner, the
/// delegate that acted, the approvals taken away, the note and how the deposit
/// was split.
pub open spec fn is_transfer_outcome(
    before: ContractView,
    after: ContractView,
    ctx: CallContext,
    receiver_id: Seq<char>,
    token_id: Seq<char>,
    approval_id: Option<u64>,
    memo: Option<String>,
    receipt: Result<TransferReceipt, LedgerError>,
) -> bool {
    let refusal = before.tokens.transfer_refusal(
        ctx.caller@,
        ctx.attached_deposit,
        ctx.byte_cost,
        token_id,
        before.sender_for(ctx.caller@, token_id),
        receiver_id,
        approval_id,
    );
    &&& after.metadata == before.metadata
    &&& match receipt {
        Ok(r) => {
            &&& refusal.is_none()
            &&& after.tokens == before.tokens.transferred(token_id, receiver_id)
            &&& before.tokens.owner_of(token_id) == Some(r.previous_owner@)
            &&& opt_text_view(r.authorized) == (if ctx.caller@ == r.previous_owner@ {
                None
            } else {
                Some(ctx.caller@)
            })
            &&& approval_views(r.revoked@) == before.tokens.grants_of(token_id)
            &&& r.memo == memo
            &&& Ok::<Settlement, LedgerError>(r.settlement) == spec_settlement(
                ctx.byte_cost,
                ctx.attached_deposit,
                before.tokens.transfer_delta(token_id, receiver_id),
            )
        },
        Err(e) => refusal == Some(e) && after == before,
    }
}

/// What `nft_transfer_call` does: refused, it says why and changes nothing;
/// else the token goes to the receiver for the time being and the pending
/// transfer tells what the hook is to be told and what undoes the transfer.
pub open spec fn is_transfer_call_outcome(
    before: ContractView,
    after: ContractView,
    ctx: CallContext,
    receiver_id: Seq<char>,
    token_id: Seq<char>,
    approval_id: Option<u64>,
    memo: Option<String>,
    msg: String,
    pending: Result<PendingTransfer, LedgerError>,
) -> bool {
    let refusal = before.tokens.transfer_refusal(
        ctx.caller@,
        ctx.attached_deposit,
        ctx.byte_cost,
        token_id,
        before.sender_for(ctx.caller@, token_id),
        receiver_id,
        approval_id,
    );
    &&& after.metadata == before.metadata
    &&& match pending {
        Ok(p) => {
            &&& refusal.is_none()
            &&& after.tokens == before.tokens.transferred(token_id, receiver_id)
            &&& p.token_id@ == token_id
            &&& p.sender@ == ctx.caller@
            &&& before.tokens.owner_of(token_id) == Some(p.previous_owner@)
            &&& p.receiver@ == receiver_id
            &&& approval_views(p.revoked@) == before.tokens.grants_of(token_id)
            &&& p.memo == memo
            &&& p.payload == msg
            &&& p.attached_deposit == ctx.attached_deposit
            &&& Ok::<Settlement, LedgerError>(p.settlement) == spec_settlement(
                ctx.byte_cost,
                ctx.attached_deposit,
                before.tokens.transfer_delta(token_id, receiver_id),
            )
        },
        Err(e) => refusal == Some(e) && after == before,
    }
}

/// What `nft_resolve_transfer` does: the transfer stands if the hook accepted
/// or the transfer cannot be undone; else the token goes back with the
/// approvals it had and the whole deposit goes back to the caller.
pub open spec fn is_resolution(
    before: ContractView,
    after: ContractView,
    pending: PendingTransfer,
    verdict: HookVerdict,
    outcome: TransferResolution,
) -> bool {
    &&& after.metadata == before.metadata
    &&& outcome.kept == (verdict == HookVerdict::Accepted || !before.tokens.revertible(
        pending.token_id@,
        pending.previous_owner@,
        pending.receiver@,
        approval_views(pending.revoked@),
    ))
    &&& after.tokens == (if outcome.kept {
        before.tokens
    } else {
        before.tokens.reverted(
            pending.token_id@,
            pending.previous_owner@,
            approval_views(pending.revoked@),
        )
    })
    &&& outcome.settlement == (if outcome.kept {
        pending.settlement
    } else {
        Settlement { charged: 0, refunded: pending.attached_deposit, released: 0 }
    })
}

/// What `nft_approve` does: refused, it says why and changes nothing; else
/// the delegate is approved under the token's next id and the receipt tells
/// that id, the bytes added and how the deposit was split.
pub open spec fn is_approve_outcome(
    before: ContractView,
    after: ContractView,
    ctx: CallContext,
    token_id: Seq<char>,
    account_id: Seq<char>,
    receipt: Result<ApproveReceipt, LedgerError>,
) -> bool {
    let refusal = before.tokens.approve_refusal(
        ctx.caller@,
        ctx.attached_deposit,
        ctx.byte_cost,
        token_id,
        account_id,
    );
    &&& after.metadata == before.metadata
    &&& match receipt {
        Ok(r) => {
            &&& refusal.is_none()
            &&& after.tokens == before.tokens.approved(token_id, account_id)
            &&& r.approval_id == set_of(before.tokens.approvals, token_id).next_id
            &&& r.bytes_added == before.tokens.approve_bytes(token_id, account_id)
            &&& Ok::<Settlement, LedgerError>(r.settlement) == spec_settlement(
                ctx.byte_cost,
                ctx.attached_deposit,
                r.bytes_added as int,
            )
        },
        Err(e) => refusal == Some(e) && after == before,
    }
}

/// What `nft_revoke` does: refused, it says why and changes nothing; else the
/// delegate's approval is gone and the receipt tells it, the bytes set free
/// and what is paid back.
pub open spec fn is_revoke_outcome(
    before: ContractView,
    after: ContractView,
    ctx: CallContext,
    token_id: Seq<char>,
    account_id: Seq<char>,
    receipt: Result<RevokeReceipt, LedgerError>,
) -> bool {
    let refusal = before.tokens.revoke_refusal(
        ctx.caller@,
        ctx.attached_deposit,
        ctx.byte_cost,
        token_id,
        account_id,
    );
    &&& after.metadata == before.metadata
    &&& match receipt {
        Ok(r) => {
            &&& refusal.is_none()
            &&& after.tokens == before.tokens.revoked(token_id, account_id)
            &&& r.revoked@.len() == 1
            &&& r.revoked@[0]@.0 == account_id
            &&& Some(r.revoked@[0]@.1) == lookup(before.tokens.grants_of(token_id), account_id)
            &&& r.bytes_freed == approval_bytes(account_id)
            &&& Ok::<Settlement, LedgerError>(r.settlement) == spec_settlement(
                ctx.byte_cost,
                ctx.attached_deposit,
                -(r.bytes_freed as int),
            )
        },
        Err(e) => refusal == Some(e) && after == before,
    }
}

/// What `nft_revoke_all` does: refused, it says why and changes nothing; else
/// no approval stands on the token and the receipt tells those taken away,
/// the bytes set free and what is paid back.
pub open spec fn is_revoke_all_outcome(
    before: ContractView,
    after: ContractView,
    ctx: CallContext,
    token_id: Seq<char>,
    receipt: Result<RevokeReceipt, LedgerError>,
) -> bool {
    let refusal = before.tokens.revoke_all_refusal(
        ctx.caller@,
        ctx.attached_deposit,
        ctx.byte_cost,
        token_id,
    );
    &&& after.metadata == before.metadata
    &&& match receipt {
        Ok(r) => {
            &&& refusal.is_none()
            &&& after.tokens == before.tokens.revoked_all(token_id)
            &&& approval_views(r.revoked@) == before.tokens.grants_of(token_id)
            &&& r.bytes_freed == grants_bytes(before.tokens.grants_of(token_id))
            &&& Ok::<Settlement, LedgerError>(r.settlement) == spec_settlement(
                ctx.byte_cost,
                ctx.attached_deposit,
                -(r.bytes_freed as int),
            )
        },
        Err(e) => refusal == Some(e) && after == before,
    }
}

/// What `nft_burn` does: refused, it says why and changes nothing; else the
/// token is gone and the receipt tells its owner, the bytes set free and what
/// is paid back.
pub open spec fn is_burn_outcome(
    before: ContractView,
    after: ContractView,
    ctx: CallContext,
    token_id: Seq<char>,
    receipt: Result<BurnReceipt, LedgerError>,
) -> bool {
    let refusal = before.tokens.burn_refusal(
        ctx.caller@,
        ctx.attached_deposit,
        ctx.byte_cost,
        token_id,
        ctx.caller@,
    );
    &&& after.metadata == before.metadata
    &&& match receipt {
        Ok(r) => {
            &&& refusal.is_none()
            &&& after.tokens == before.tokens.burned(token_id)
            &&& r.owner@ == ctx.caller@
            &&& r.bytes_freed == before.tokens.burn_bytes(token_id)
            &&& Ok::<Settlement, LedgerError>(r.settlement) == spec_settlement(
                ctx.byte_cost,
                ctx.attached_deposit,
                -(r.bytes_freed as int),
            )
        },
        Err(e) => refusal == Some(e) && after == before,
    }
}

/// A non-fungible token contract.
pub struct WrappedAppchainNFT {
    tokens: TokenLedger,
    metadata: ContractMetadata,
}

impl View for WrappedAppchainNFT {
    type V = ContractView;

    closed spec fn view(&self) -> ContractView {
        ContractView { tokens: self.tokens@, metadata: self.metadata@ }
    }
}

impl WrappedAppchainNFT {
    /// The contract holds a well-formed state.
    pub closed spec fn wf(&self) -> bool {
        &&& self.tokens.wf()
        &&& self@.wf()
    }

    /// What holds of every well-formed contract.
    pub proof fn lemma_wf(&self)
        requires
            self.wf(),
        ensures
            self@.wf(),
    {
    }

    /// Sets the contract up, once: `owner_id` is who may mint. Fails with
    /// `AlreadyInitialized` where `state_exists` says that the contract was
    /// set up before, else with `InvalidMetadata` where `metadata` breaks the
    /// rules for its fields.
    pub fn new(state_exists: bool, owner_id: String, metadata: ContractMetadata) -> (contract:
        Result<Self, LedgerError>)
        ensures
            match contract {
                Ok(c) => !state_exists && metadata@.valid() && c.wf() && c@ == ContractView::fresh(
                    owner_id@,
                    metadata@,
                ),
                Err(e) => e == (if state_exists {
                    LedgerError::AlreadyInitialized
                } else {
                    LedgerError::InvalidMetadata
                }) && (state_exists || !metadata@.valid()),
            },
    {
        if state_exists {
            return Err(LedgerError::AlreadyInitialized);
        }
        if !metadata.is_valid() {
            return Err(LedgerError::InvalidMetadata);
        }
        Ok(WrappedAppchainNFT { tokens: TokenLedger::new(owner_id, true), metadata })
    }

    /// Mints `token_id` to `token_owner_id` with `token_metadata`. Only the
    /// contract's owner may mint; the deposit must cover the new state, and
    /// what is left of it goes back.
    pub fn nft_mint(
        &mut self,
        ctx: &CallContext,
        token_id: String,
        token_owner_id: String,
        token_metadata: TokenMetadata,
    ) -> (receipt: Result<MintReceipt, LedgerError>)
        requires
            old(self).wf(),
        ensures
            final(self).wf(),
            is_mint_outcome(
                old(self)@,
                final(self)@,
                *ctx,
                token_id@,
                token_owner_id@,
                token_metadata@,
                receipt,
            ),
    {
        let receipt = self.tokens.mint(ctx, token_id, token_owner_id, Some(token_metadata));
        proof {
            self.tokens.lemma_wf();
        }
        receipt
    }

    /// Moves `token_id` from its owner to `receiver_id`, for the owner or for
    /// a delegate approved on the token.
    pub fn nft_transfer(
        &mut self,
        ctx: &CallContext,
        receiver_id: &String,
        token_id: &String,
        approval_id: Option<u64>,
        memo: Option<String>,
    ) -> (receipt: Result<TransferReceipt, LedgerError>)
        requires
            old(self).wf(),
        ensures
            final(self).wf(),
            is_transfer_outcome(
                old(self)@,
                final(self)@,
                *ctx,
                receiver_id@,
                token_id@,
                approval_id,
                memo,
                receipt,
            ),
    {
        let sender = match self.tokens.owner_of(token_id) {
            Some(owner) => owner,
            None => ctx.caller.clone(),
        };
        let receipt = self.tokens.transfer(ctx, &sender, receiver_id, token_id, approval_id, memo);
        proof {
            self.tokens.lemma_wf();
        }
        receipt
    }

    /// Moves `token_id` to `receiver_id` for the time being and hands back
    /// what the receiver's hook is to be told with `msg`. `nft_resolve_transfer`
    /// ends the transfer once the hook has answered.
    pub fn nft_transfer_call(
        &mut self,
        ctx: &CallContext,
        receiver_id: &String,
        token_id: &String,
        approval_id: Option<u64>,
        memo: Option<String>,
        msg: String,
    ) -> (pending: Result<PendingTransfer, LedgerError>)
        requires
            old(self).wf(),
        ensures
            final(self).wf(),
            is_transfer_call_outcome(
                old(self)@,
                final(self)@,
                *ctx,
                receiver_id@,
                token_id@,
                approval_id,
                memo,
                msg,
                pending,
            ),
    {
        let sender = match self.tokens.owner_of(token_id) {
            Some(owner) => owner,
            None => ctx.caller.clone(),
        };
        let pending = self.tokens.transfer_and_notify(
            ctx,
            &sender,
            receiver_id,
            token_id,
            approval_id,
            memo,
            msg,
        );
        proof {
            self.tokens.lemma_wf();
        }
        pending
    }

    /// Ends a pending transfer by the verdict of the receiver's hook, and says
    /// whether the token stayed with the receiver.
    pub fn nft_resolve_transfer(&mut self, pending: PendingTransfer, verdict: HookVerdict) -> (
        outcome: TransferResolution)
        requires
            old(self).wf(),
        ensures
            final(self).wf(),
            is_resolution(old(self)@, final(self)@, pending, verdict, outcome),
    {
        let outcome = self.tokens.resolve_transfer(pending, verdict);
        proof {
            self.tokens.lemma_wf();
        }
        outcome
    }

    /// Approves `account_id` to move `token_id`, for the token's owner.
    pub fn nft_approve(&mut self, ctx: &CallContext, token_id: &String, account_id: &String) -> (
        receipt: Result<ApproveReceipt, LedgerError>)
        requires
            old(self).wf(),
        ensures
            final(self).wf(),
            is_approve_outcome(old(self)@, final(self)@, *ctx, token_id@, account_id@, receipt),
    {
        let receipt = self.tokens.approve(ctx, token_id, account_id);
        proof {
            self.tokens.lemma_wf();
        }
        receipt
    }

    /// Takes the approval of `account_id` on `token_id` away, for the token's
    /// owner.
    pub fn nft_revoke(&mut self, ctx: &CallContext, token_id: &String, account_id: &String) -> (
        receipt: Result<RevokeReceipt, LedgerError>)
        requires
            old(self).wf(),
        ensures
            final(self).wf(),
            is_revoke_outcome(old(self)@, final(self)@, *ctx, token_id@, account_id@, receipt),
    {
        let receipt = self.tokens.revoke(ctx, token_id, account_id);
        proof {
            self.tokens.lemma_wf();
        }
        receipt
    }

    /// Takes all approvals on `token_id` away, for the token's owner.
    pub fn nft_revoke_all(&mut self, ctx: &CallContext, token_id: &String) -> (receipt: Result<
        RevokeReceipt,
        LedgerError,
    >)
        requires
            old(self).wf(),
        ensures
            final(self).wf(),
            is_revoke_all_outcome(old(self)@, final(self)@, *ctx, token_id@, receipt),
    {
        let receipt = self.tokens.revoke_all(ctx, token_id);
        proof {
            self.tokens.lemma_wf();
        }
        receipt
    }

    /// Burns `token_id`, for its owner.
    pub fn nft_burn(&mut self, ctx: &CallContext, token_id: &String) -> (receipt: Result<
        BurnReceipt,
        LedgerError,
    >)
        requires
            old(self).wf(),
        ensures
            final(self).wf(),
            is_burn_outcome(old(self)@, final(self)@, *ctx, token_id@, receipt),
    {
        let receipt = self.tokens.burn(ctx, token_id, &ctx.caller);
        proof {
            self.tokens.lemma_wf();
        }
        receipt
    }

    /// Whether `approved_account_id` is approved on `token_id`, under
    /// `approval_id` if one is given.
    pub fn nft_is_approved(
        &self,
        token_id: &String,
        approved_account_id: &String,
        approval_id: Option<u64>,
    ) -> (yes: bool)
        requires
            self.wf(),
        ensures
            yes == self@.tokens.is_approved(token_id@, approved_account_id@, approval_id),
    {
        self.tokens.is_approved(token_id, approved_account_id, approval_id)
    }

    /// The token `token_id`, if it is live.
    pub fn nft_token(&self, token_id: &String) -> (found: Option<Token>)
        requires
            self.wf(),
        ensures
            match found {
                Some(t) => self@.tokens.token(token_id@) == Some(t@),
                None => self@.tokens.token(token_id@).is_none(),
            },
    {
        self.tokens.token(token_id)
    }

    /// The number of live tokens.
    pub fn nft_total_supply(&self) -> (count: usize)
        ensures
            count == self@.tokens.total_supply(),
    {
        self.tokens.total_supply()
    }

    /// One page of all live tokens, in the order in which they were minted.
    pub fn nft_tokens(&self, from_index: Option<u64>, limit: Option<u64>) -> (page: Vec<Token>)
        requires
            self.wf(),
        ensures
            token_views(page@) == self@.tokens.tokens_page(from_index, limit),
    {
        EnumerationView::new(&self.tokens).tokens(from_index, limit)
    }

    /// One page of the tokens of `account_id`, in the order in which they
    /// were minted.
    pub fn nft_tokens_for_owner(
        &self,
        account_id: &String,
        from_index: Option<u64>,
        limit: Option<u64>,
    ) -> (page: Vec<Token>)
        requires
            self.wf(),
        ensures
            token_views(page@) == self@.tokens.owner_page(account_id@, from_index, limit),
    {
        EnumerationView::new(&self.tokens).tokens_for_owner(account_id, from_index, limit)
    }

    /// The descriptive data of the contract.
    pub fn nft_metadata(&self) -> (metadata: ContractMetadata)
        ensures
            metadata@ == self@.metadata,
    {
        self.metadata.duplicate()
    }

    /// The accounted size of the ledger's state.
    pub fn storage_usage(&self) -> (bytes: u64)
        requires
            self.wf(),
        ensures
            bytes == self@.tokens.bytes(),
    {
        self.tokens.storage_usage()
    }

    /// The whole state of the contract, to be stored.
    pub fn snapshot(&self) -> (snapshot: ContractSnapshot)
        requires
            self.wf(),
        ensures
            snapshot@ == self@,
    {
        ContractSnapshot { tokens: self.tokens.snapshot(), metadata: self.metadata.duplicate() }
    }

    /// The contract that `snapshot` holds, unless what it holds is not a
    /// well-formed state.
    pub fn restore(snapshot: ContractSnapshot) -> (contract: Option<Self>)
        ensures
            match contract {
                Some(c) => c.wf() && c@ == snapshot@,
                None => !snapshot@.wf(),
            },
    {
        let ContractSnapshot { tokens: stored, metadata } = snapshot;
        if !stored.metadata_required || !metadata.is_valid() {
            return None;
        }
        match TokenLedger::restore(stored) {
            Some(tokens) => {
                proof {
                    tokens.lemma_wf();
                }
                Some(WrappedAppchainNFT { tokens, metadata })
            },
            None => None,
        }
    }
}

} // verus!
