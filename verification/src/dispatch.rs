//! Every call that the contract answers as one value, and one function that
//! answers them all. A host that receives calls by name turns each into a
//! `Request` and hands it to `handle`.

use vstd::prelude::*;
use crate::contract::{
    is_approve_outcome, is_burn_outcome, is_mint_outcome, is_resolution, is_revoke_all_outcome,
    is_revoke_outcome, is_transfer_call_outcome, is_transfer_outcome, ContractView,
    WrappedAppchainNFT,
};
use crate::error::LedgerError;
use crate::ledger::{
    token_views, ApproveReceipt, BurnReceipt, CallContext, HookVerdict, MintReceipt,
    PendingTransfer, RevokeReceipt, Token, TransferReceipt, TransferResolution,
};
use crate::metadata::{ContractMetadata, TokenMetadata};

verus! {

/// A call on the contract.
#[derive(Clone, Debug, PartialEq, Eq)]
pub enum Request {
    Mint { token_id: String, token_owner_id: String, token_metadata: TokenMetadata },
    Transfer {
        receiver_id: String,
        token_id: String,
        approval_id: Option<u64>,
        memo: Option<String>,
    },
    TransferCall {
        receiver_id: String,
        token_id: String,
        approval_id: Option<u64>,
        memo: Option<String>,
        msg: String,
    },
    ResolveTransfer { pending: PendingTransfer, verdict: HookVerdict },
    Approve { token_id: String, account_id: String },
    Revoke { token_id: String, account_id: String },
    RevokeAll { token_id: String },
    Burn { token_id: String },
    IsApproved { token_id: String, approved_account_id: String, approval_id: Option<u64> },
    Token { token_id: String },
    TotalSupply,
    Tokens { from_index: Option<u64>, limit: Option<u64> },
    TokensForOwner { account_id: String, from_index: Option<u64>, limit: Option<u64> },
    Metadata,
}

/// The answer to a call that was not refused.
#[derive(Clone, Debug, PartialEq, Eq)]
pub enum Response {
    Minted(MintReceipt),
    Transferred(TransferReceipt),
    Pending(PendingTransfer),
    Resolved(TransferResolution),
    Approved(ApproveReceipt),
    Revoked(RevokeReceipt),
    Burned(BurnReceipt),
    IsApproved(bool),
    Token(Option<Token>),
    TotalSupply(usize),
    Tokens(Vec<Token>),
    Metadata(ContractMetadata),
}

/// What `handle` does with `request`: what the function of that call does,
/// with its answer in the variant of `Response` that belongs to the call. A
/// call that only reads is never refused and changes nothing.
pub open spec fn is_handled(
    before: ContractView,
    after: ContractView,
    ctx: CallContext,
    request: Request,
    response: Result<Response, LedgerError>,
) -> bool {
    match request {
        Request::Mint { token_id, token_owner_id, token_metadata } => match response {
            Ok(Response::Minted(r)) => is_mint_outcome(
                before,
                after,
                ctx,
                token_id@,
                token_owner_id@,
                token_metadata@,
                Ok(r),
            ),
            Ok(_) => false,
            Err(e) => is_mint_outcome(
                before,
                after,
                ctx,
                token_id@,
                token_owner_id@,
                token_metadata@,
                Err(e),
            ),
        },
        Request::Transfer { receiver_id, token_id, approval_id, memo } => match response {
            Ok(Response::Transferred(r)) => is_transfer_outcome(
                before,
                after,
                ctx,
                receiver_id@,
                token_id@,
                approval_id,
                memo,
                Ok(r),
            ),
            Ok(_) => false,
            Err(e) => is_transfer_outcome(
                before,
                after,
                ctx,
                receiver_id@,
                token_id@,
                approval_id,
                memo,
                Err(e),
            ),
        },
        Request::TransferCall { receiver_id, token_id, approval_id, memo, msg } => match response {
            Ok(Response::Pending(p)) => is_transfer_call_outcome(
                before,
                after,
                ctx,
                receiver_id@,
                token_id@,
                approval_id,
                memo,
                msg,
                Ok(p),
            ),
            Ok(_) => false,
            Err(e) => is_transfer_call_outcome(
                before,
                after,
                ctx,
                receiver_id@,
                token_id@,
                approval_id,
                memo,
                msg,
                Err(e),
            ),
        },
        Request::ResolveTransfer { pending, verdict } => match response {
            Ok(Response::Resolved(outcome)) => is_resolution(
                before,
                after,
                pending,
                verdict,
                outcome,
            ),
            _ => false,
        },
        Request::Approve { token_id, account_id } => match response {
            Ok(Response::Approved(r)) => is_approve_outcome(
                before,
                after,
                ctx,
                token_id@,
                account_id@,
                Ok(r),
            ),
            Ok(_) => false,
            Err(e) => is_approve_outcome(before, after, ctx, token_id@, account_id@, Err(e)),
        },
        Request::Revoke { token_id, account_id } => match response {
            Ok(Response::Revoked(r)) => is_revoke_outcome(
                before,
                after,
                ctx,
                token_id@,
                account_id@,
                Ok(r),
            ),
            Ok(_) => false,
            Err(e) => is_revoke_outcome(before, after, ctx, token_id@, account_id@, Err(e)),
        },
        Request::RevokeAll { token_id } => match response {
            Ok(Response::Revoked(r)) => is_revoke_all_outcome(
                before,
                after,
                ctx,
                token_id@,
                Ok(r),
            ),
            Ok(_) => false,
            Err(e) => is_revoke_all_outcome(before, after, ctx, token_id@, Err(e)),
        },
        Request::Burn { token_id } => match response {
            Ok(Response::Burned(r)) => is_burn_outcome(before, after, ctx, token_id@, Ok(r)),
            Ok(_) => false,
            Err(e) => is_burn_outcome(before, after, ctx, token_id@, Err(e)),
        },
        Request::IsApproved { token_id, approved_account_id, approval_id } => after == before
            && match response {
            Ok(Response::IsApproved(yes)) => yes == before.tokens.is_approved(
                token_id@,
                approved_account_id@,
                approval_id,
            ),
            _ => false,
        },
        Request::Token { token_id } => after == before && match response {
            Ok(Response::Token(Some(t))) => before.tokens.token(token_id@) == Some(t@),
            Ok(Response::Token(None)) => before.tokens.token(token_id@).is_none(),
            _ => false,
        },
        Request::TotalSupply => after == before && match response {
            Ok(Response::TotalSupply(count)) => count == before.tokens.total_supply(),
            _ => false,
        },
        Request::Tokens { from_index, limit } => after == before && match response {
            Ok(Response::Tokens(page)) => token_views(page@) == before.tokens.tokens_page(
                from_index,
                limit,
            ),
            _ => false,
        },
        Request::TokensForOwner { account_id, from_index, limit } => after == before
            && match response {
            Ok(Response::Tokens(page)) => token_views(page@) == before.tokens.owner_page(
                account_id@,
                from_index,
                limit,
            ),
            _ => false,
        },
        Request::Metadata => after == before && match response {
            Ok(Response::Metadata(metadata)) => metadata@ == before.metadata,
            _ => false,
        },
    }
}

impl WrappedAppchainNFT {
    /// Answers `request`, made in the context `ctx`.
    pub fn handle(&mut self, ctx: &CallContext, request: Request) -> (response: Result<
        Response,
        LedgerError,
    >)
        requires
            old(self).wf(),
        ensures
            final(self).wf(),
            is_handled(old(self)@, final(self)@, *ctx, request, response),
    {
        match request {
            Request::Mint { token_id, token_owner_id, token_metadata } => {
                match self.nft_mint(ctx, token_id, token_owner_id, token_metadata) {
                    Ok(r) => Ok(Response::Minted(r)),
                    Err(e) => Err(e),
                }
            },
            Request::Transfer { receiver_id, token_id, approval_id, memo } => {
                match self.nft_transfer(ctx, &receiver_id, &token_id, approval_id, memo) {
                    Ok(r) => Ok(Response::Transferred(r)),
                    Err(e) => Err(e),
                }
            },
            Request::TransferCall { receiver_id, token_id, approval_id, memo, msg } => {
                match self.nft_transfer_call(ctx, &receiver_id, &token_id, approval_id, memo, msg) {
                    Ok(p) => Ok(Response::Pending(p)),
                    Err(e) => Err(e),
                }
            },
            Request::ResolveTransfer { pending, verdict } => {
                Ok(Response::Resolved(self.nft_resolve_transfer(pending, verdict)))
            },
            Request::Approve { token_id, account_id } => {
                match self.nft_approve(ctx, &token_id, &account_id) {
                    Ok(r) => Ok(Response::Approved(r)),
                    Err(e) => Err(e),
                }
            },
            Request::Revoke { token_id, account_id } => {
                match self.nft_revoke(ctx, &token_id, &account_id) {
                    Ok(r) => Ok(Response::Revoked(r)),
                    Err(e) => Err(e),
                }
            },
            Request::RevokeAll { token_id } => {
                match self.nft_revoke_all(ctx, &token_id) {
                    Ok(r) => Ok(Response::Revoked(r)),
                    Err(e) => Err(e),
                }
            },
            Request::Burn { token_id } => {
                match self.nft_burn(ctx, &token_id) {
                    Ok(r) => Ok(Response::Burned(r)),
                    Err(e) => Err(e),
                }
            },
            Request::IsApproved { token_id, approved_account_id, approval_id } => {
                Ok(
                    Response::IsApproved(
                        self.nft_is_approved(&token_id, &approved_account_id, approval_id),
                    ),
                )
            },
            Request::Token { token_id } => Ok(Response::Token(self.nft_token(&token_id))),
            Request::TotalSupply => Ok(Response::TotalSupply(self.nft_total_supply())),
            Request::Tokens { from_index, limit } => {
                Ok(Response::Tokens(self.nft_tokens(from_index, limit)))
            },
            Request::TokensForOwner { account_id, from_index, limit } => {
                Ok(Response::Tokens(self.nft_tokens_for_owner(&account_id, from_index, limit)))
            },
            Request::Metadata => Ok(Response::Metadata(self.nft_metadata())),
        }
    }
}

} // verus!
