//! The token ledger: minting, transfer, burning and approvals, each settled
//! against the deposit of the call that asks for it.
//!
//! A call is checked in full before the ledger is touched, so a refused call
//! leaves the ledger as it was. What each call checks and changes is written
//! down in `model`, over what the ledger holds.

use vstd::prelude::*;
use crate::approval::{
    approval_bytes, approval_views, approvals_bytes, grant_weight, grants_bytes, row_views, set_of,
    set_weight, Approval, ApprovalRegistry, ApprovalRow,
};
use crate::error::LedgerError;
use crate::layout::{
    add_bytes, lemma_weigh_bounds, lemma_weigh_empty, lemma_weigh_prefix, opt_text_view,
    text_bytes_of, text_views, weigh, WORD_BYTES,
};
use crate::metadata::{copy_opt_metadata, opt_metadata_view, TokenMetadata};
use crate::model::{
    lemma_approved, lemma_burned, lemma_minted, lemma_reverted, lemma_revoked, lemma_revoked_all,
    lemma_transferred, metadata_weight, mint_bytes, LedgerView, TokenView,
};
use crate::ownership::{holding_weight, tokens_owned, OwnershipIndex};
use crate::storage::{
    spec_measure, spec_settlement, Settlement, StorageAccountant, PROTOCOL_BYTE_COST,
};
use crate::table::{
    entry_views, has_key, index_of_key, lemma_index_of_key, lemma_with_row, lemma_without_row,
    lookup, Entry, Table,
};

verus! {

/// What the hosting chain tells about one call.
#[derive(Clone, Debug, PartialEq, Eq)]
pub struct CallContext {
    /// Who makes the call.
    pub caller: String,
    /// The deposit attached to the call.
    pub attached_deposit: u128,
    /// The price of one byte of state.
    pub byte_cost: u128,
}

impl CallContext {
    /// The context of a call at the protocol's price of a byte.
    pub fn new(caller: String, attached_deposit: u128) -> (ctx: Self)
        ensures
            ctx.caller == caller,
            ctx.attached_deposit == attached_deposit,
            ctx.byte_cost == PROTOCOL_BYTE_COST,
    {
        let accountant = StorageAccountant::at_protocol_price();
        CallContext { caller, attached_deposit, byte_cost: accountant.byte_cost }
    }

    /// The context of a call at a given price of a byte.
    pub fn at_price(caller: String, attached_deposit: u128, byte_cost: u128) -> (ctx: Self)
        ensures
            ctx.caller == caller,
            ctx.attached_deposit == attached_deposit,
            ctx.byte_cost == byte_cost,
    {
        CallContext { caller, attached_deposit, byte_cost }
    }
}

/// A token as it is handed out.
#[derive(Clone, Debug, PartialEq, Eq)]
pub struct Token {
    pub token_id: String,
    pub owner_id: String,
    pub metadata: Option<TokenMetadata>,
    /// The approvals that stand on the token, oldest first.
    pub approvals: Vec<Approval>,
}

impl View for Token {
    type V = TokenView;

    open spec fn view(&self) -> TokenView {
        TokenView {
            token_id: self.token_id@,
            owner_id: self.owner_id@,
            metadata: opt_metadata_view(self.metadata),
            approvals: approval_views(self.approvals@),
        }
    }
}

/// What a list of tokens holds.
pub open spec fn token_views(tokens: Seq<Token>) -> Seq<TokenView> {
    Seq::new(tokens.len(), |i: int| tokens[i]@)
}

/// What a successful `mint` hands back.
#[derive(Clone, Debug, PartialEq, Eq)]
pub struct MintReceipt {
    /// The token that was minted; its owner and id are what is to be
    /// announced.
    pub token: Token,
    /// The bytes by which the state grew.
    pub bytes_added: u64,
    /// How the deposit was split.
    pub settlement: Settlement,
}

/// What a successful `transfer` hands back.
#[derive(Clone, Debug, PartialEq, Eq)]
pub struct TransferReceipt {
    /// Who owned the token before.
    pub previous_owner: String,
    /// The delegate that moved the token, if it was not the owner.
    pub authorized: Option<String>,
    /// The approvals that the transfer took away, oldest first.
    pub revoked: Vec<Approval>,
    /// The note that came with the call.
    pub memo: Option<String>,
    /// How the deposit was split.
    pub settlement: Settlement,
}

/// What a successful `burn` hands back.
#[derive(Clone, Debug, PartialEq, Eq)]
pub struct BurnReceipt {
    /// Who owned the token.
    pub owner: String,
    /// The bytes that were set free.
    pub bytes_freed: u64,
    /// How the deposit was split and what is paid for the storage set free.
    pub settlement: Settlement,
}

/// What a successful `approve` hands back.
#[derive(Clone, Debug, PartialEq, Eq)]
pub struct ApproveReceipt {
    /// The id under which the delegate is approved from now on.
    pub approval_id: u64,
    /// The bytes by which the state grew.
    pub bytes_added: u64,
    /// How the deposit was split.
    pub settlement: Settlement,
}

/// What a successful `revoke` or `revoke_all` hands back.
#[derive(Clone, Debug, PartialEq, Eq)]
pub struct RevokeReceipt {
    /// The approvals that were taken away, oldest first.
    pub revoked: Vec<Approval>,
    /// The bytes that were set free.
    pub bytes_freed: u64,
    /// How the deposit was split and what is paid for the storage set free.
    pub settlement: Settlement,
}

/// The whole state of a ledger as it is stored: owners, token data and
/// approvals each in a list of its own.
#[derive(Clone, Debug, PartialEq, Eq)]
pub struct LedgerSnapshot {
    /// Who may mint.
    pub minter: String,
    /// Whether a token must be minted with data.
    pub metadata_required: bool,
    /// The live tokens with their owners, in the order in which they were
    /// minted.
    pub owners: Vec<Entry<String>>,
    /// The data of the tokens that have any.
    pub metadata: Vec<Entry<TokenMetadata>>,
    /// The approvals, by token.
    pub approvals: Vec<ApprovalRow>,
    /// The ids of the tokens that were burned.
    pub retired: Vec<String>,
}

impl View for LedgerSnapshot {
    type V = LedgerView;

    open spec fn view(&self) -> LedgerView {
        LedgerView {
            minter: self.minter@,
            metadata_required: self.metadata_required,
            holdings: entry_views(self.owners@),
            metadata: entry_views(self.metadata@),
            approvals: row_views(self.approvals@),
            retired: text_views(self.retired@).to_set(),
        }
    }
}

/// What the receiver's hook said of a transfer.
#[derive(Clone, Copy, Debug, PartialEq, Eq, Structural)]
pub enum HookVerdict {
    /// The receiver keeps the token.
    Accepted,
    /// The receiver hands the token back.
    Rejected,
    /// The hook failed, or its answer could not be read. This counts as a
    /// rejection.
    Failed,
}

/// A transfer that waits for the verdict of the receiver's hook: what the
/// hook is to be told, and what is needed to undo the transfer.
#[derive(Clone, Debug, PartialEq, Eq)]
pub struct PendingTransfer {
    pub token_id: String,
    /// Who asked for the transfer.
    pub sender: String,
    /// Who owned the token before.
    pub previous_owner: String,
    pub receiver: String,
    /// The approvals that the transfer took away, oldest first.
    pub revoked: Vec<Approval>,
    /// The note that came with the call.
    pub memo: Option<String>,
    /// What the caller wants the hook to be told.
    pub payload: String,
    /// The deposit attached to the call.
    pub attached_deposit: u128,
    /// How the deposit is split if the transfer stands.
    pub settlement: Settlement,
}

/// How a pending transfer ended.
#[derive(Clone, Copy, Debug, PartialEq, Eq, Structural)]
pub struct TransferResolution {
    /// Whether the token stayed with the receiver.
    pub kept: bool,
    /// How the deposit is split: as agreed if the transfer stands, all of it
    /// back to the caller if the transfer was undone.
    pub settlement: Settlement,
}

/// Accounted size of the token data in `table`, unless it is beyond 64 bits.
fn metadata_bytes_of(table: &Table<TokenMetadata>) -> (n: Option<u64>)
    ensures
        match n {
            Some(bytes) => bytes == weigh(table@, metadata_weight()),
            None => weigh(table@, metadata_weight()) > u64::MAX,
        },
{
    let mut n: u64 = 0;
    let mut i: usize = 0;
    proof {
        lemma_weigh_empty(metadata_weight());
    }
    while i < table.len()
        invariant
            i <= table@.len(),
            n == weigh(table@.take(i as int), metadata_weight()),
        decreases table@.len() - i,
    {
        proof {
            lemma_weigh_prefix(table@, metadata_weight(), i as int);
            lemma_weigh_prefix(table@, metadata_weight(), i + 1);
        }
        let row: u128 = text_bytes_of(table.key_at(i)) + table.value_at(i).bytes();
        match add_bytes(n, row) {
            Some(sum) => {
                n = sum;
            },
            None => {
                return None;
            },
        }
        i += 1;
    }
    assert(table@.take(table@.len() as int) =~= table@);
    Some(n)
}

/// The token ledger.
pub struct TokenLedger {
    minter: String,
    metadata_required: bool,
    ownership: OwnershipIndex,
    metadata: Table<TokenMetadata>,
    approvals: ApprovalRegistry,
    retired: Table<()>,
    usage: u64,
}

impl View for TokenLedger {
    type V = LedgerView;

    closed spec fn view(&self) -> LedgerView {
        LedgerView {
            minter: self.minter@,
            metadata_required: self.metadata_required,
            holdings: self.ownership@,
            metadata: self.metadata@,
            approvals: self.approvals@,
            retired: Set::new(|t: Seq<char>| has_key(self.retired@, t)),
        }
    }
}

impl TokenLedger {
    /// The ledger holds a well-formed state and knows its accounted size.
    pub closed spec fn wf(&self) -> bool {
        &&& self@.wf()
        &&& self.retired.wf()
        &&& self.usage == self@.bytes()
    }

    /// What holds of every well-formed ledger.
    pub proof fn lemma_wf(&self)
        requires
            self.wf(),
        ensures
            self@.wf(),
    {}

    /// A ledger without tokens, on which `minter` may mint.
    pub fn new(minter: String, metadata_required: bool) -> (ledger: Self)
        ensures
            ledger.wf(),
            ledger@ == (LedgerView {
                minter: minter@,
                metadata_required,
                holdings: Seq::empty(),
                metadata: Seq::empty(),
                approvals: Seq::empty(),
                retired: Set::empty(),
            }),
    {
        let ledger = TokenLedger {
            minter,
            metadata_required,
            ownership: OwnershipIndex::new(),
            metadata: Table::new(),
            approvals: ApprovalRegistry::new(),
            retired: Table::new(),
            usage: 0,
        };
        proof {
            lemma_weigh_empty(holding_weight());
            lemma_weigh_empty(metadata_weight());
            lemma_weigh_empty(set_weight());
            assert(ledger@.retired =~= Set::<Seq<char>>::empty());
        }
        ledger
    }

    /// Settles a change of the accounted size, from what it is to `after`,
    /// against the deposit of the call.
    fn settle_change(&self, ctx: &CallContext, after: u64) -> (settlement: Result<
        Settlement,
        LedgerError,
    >)
        ensures
            settlement == spec_settlement(
                ctx.byte_cost,
                ctx.attached_deposit,
                spec_measure(self.usage, after),
            ),
    {
        let accountant = StorageAccountant::new(ctx.byte_cost);
        let delta = StorageAccountant::measure(self.usage, after);
        accountant.settle_delta(ctx.attached_deposit, delta)
    }

    /// Who may mint.
    pub fn minter(&self) -> (minter: &String)
        ensures
            minter@ == self@.minter,
    {
        &self.minter
    }

    /// The accounted size of the state.
    pub fn storage_usage(&self) -> (bytes: u64)
        requires
            self.wf(),
        ensures
            bytes == self@.bytes(),
    {
        self.usage
    }

    /// The number of live tokens.
    pub fn total_supply(&self) -> (count: usize)
        ensures
            count == self@.total_supply(),
    {
        self.ownership.len()
    }

    /// The owner of `token`, if it is live.
    pub fn owner_of(&self, token: &String) -> (owner: Option<String>)
        requires
            self.wf(),
        ensures
            match owner {
                Some(o) => self@.owner_of(token@) == Some(o@),
                None => self@.owner_of(token@).is_none(),
            },
    {
        self.ownership.owner_of(token)
    }

    /// The ids of the tokens of `owner`, in the order in which they were
    /// minted.
    pub fn token_ids_of(&self, owner: &String) -> (ids: Vec<String>)
        ensures
            text_views(ids@) == tokens_owned(self@.holdings, owner@),
    {
        self.ownership.tokens_of(owner)
    }

    /// Whether `token` was burned.
    pub fn is_retired(&self, token: &String) -> (yes: bool)
        ensures
            yes == self@.retired.contains(token@),
    {
        self.retired.find(token).is_some()
    }

    /// Whether `delegate` is approved on the live token `token`, under
    /// `approval_id` if one is given.
    pub fn is_approved(&self, token: &String, delegate: &String, approval_id: Option<u64>) -> (yes:
        bool)
        requires
            self.wf(),
        ensures
            yes == self@.is_approved(token@, delegate@, approval_id),
    {
        if self.ownership.position(token).is_none() {
            return false;
        }
        self.approvals.is_approved(token, delegate, approval_id)
    }

    /// The token at place `i` of the order in which the live tokens were
    /// minted.
    pub fn token_at(&self, i: usize) -> (token: Token)
        requires
            self.wf(),
            i < self@.holdings.len(),
        ensures
            Some(token@) == self@.token(self@.holdings[i as int].0),
    {
        let token_id = self.ownership.token_at(i).clone();
        let owner_id = self.ownership.owner_at(i).clone();
        proof {
            lemma_index_of_key(self@.holdings, i as int);
        }
        let metadata = match self.metadata.find(&token_id) {
            Some(at) => {
                proof {
                    lemma_index_of_key(self@.metadata, at as int);
                }
                Some(self.metadata.value_at(at).duplicate())
            },
            None => None,
        };
        let approvals = self.approvals.approvals(&token_id);
        Token { token_id, owner_id, metadata, approvals }
    }

    /// The token `token` as it is handed out, if it is live.
    pub fn token(&self, token: &String) -> (found: Option<Token>)
        requires
            self.wf(),
        ensures
            match found {
                Some(t) => self@.token(token@) == Some(t@),
                None => self@.token(token@).is_none(),
            },
    {
        match self.ownership.position(token) {
            Some(i) => Some(self.token_at(i)),
            None => None,
        }
    }

    /// Mints `token_id` to `owner`. Only the minter may do so, the id must
    /// never have been used, and the deposit must cover the new state.
    pub fn mint(
        &mut self,
        ctx: &CallContext,
        token_id: String,
        owner: String,
        metadata: Option<TokenMetadata>,
    ) -> (receipt: Result<MintReceipt, LedgerError>)
        requires
            old(self).wf(),
        ensures
            final(self).wf(),
            match receipt {
                Ok(r) => {
                    &&& old(self)@.mint_refusal(
                        ctx.caller@,
                        ctx.attached_deposit,
                        ctx.byte_cost,
                        token_id@,
                        owner@,
                        opt_metadata_view(metadata),
                    ).is_none()
                    &&& final(self)@ == old(self)@.minted(
                        token_id@,
                        owner@,
                        opt_metadata_view(metadata),
                    )
                    &&& r.token@ == (TokenView {
                        token_id: token_id@,
                        owner_id: owner@,
                        metadata: opt_metadata_view(metadata),
                        approvals: Seq::empty(),
                    })
                    &&& r.bytes_added == mint_bytes(token_id@, owner@, opt_metadata_view(metadata))
                    &&& final(self)@.bytes() == old(self)@.bytes() + r.bytes_added
                    &&& Ok::<Settlement, LedgerError>(r.settlement) == spec_settlement(
                        ctx.byte_cost,
                        ctx.attached_deposit,
                        r.bytes_added as int,
                    )
                    &&& final(self)@.owner_of(token_id@) == Some(owner@)
                    &&& tokens_owned(final(self)@.holdings, owner@).contains(token_id@)
                    &&& final(self)@.total_supply() == old(self)@.total_supply() + 1
                },
                Err(e) => {
                    &&& old(self)@.mint_refusal(
                        ctx.caller@,
                        ctx.attached_deposit,
                        ctx.byte_cost,
                        token_id@,
                        owner@,
                        opt_metadata_view(metadata),
                    ) == Some(e)
                    &&& final(self)@ == old(self)@
                },
            },
    {
        if !(ctx.caller == self.minter) {
            return Err(LedgerError::Unauthorized);
        }
        if self.ownership.position(&token_id).is_some() || self.retired.find(&token_id).is_some() {
            return Err(LedgerError::DuplicateToken);
        }
        if self.metadata_required && metadata.is_none() {
            return Err(LedgerError::InvalidMetadata);
        }
        let id_bytes: u128 = text_bytes_of(&token_id);
        let data_bytes: u128 = match &metadata {
            Some(m) => id_bytes + m.bytes(),
            None => 0,
        };
        let added: u128 = id_bytes + text_bytes_of(&owner) + data_bytes;
        let after: u64 = match add_bytes(self.usage, added) {
            Some(n) => n,
            None => {
                return Err(LedgerError::ResourceExhausted);
            },
        };
        let settlement = match self.settle_change(ctx, after) {
            Ok(s) => s,
            Err(e) => {
                return Err(e);
            },
        };
        proof {
            lemma_minted(old(self)@, token_id@, owner@, opt_metadata_view(metadata));
        }
        let token = Token {
            token_id: token_id.clone(),
            owner_id: owner.clone(),
            metadata: copy_opt_metadata(&metadata),
            approvals: Vec::new(),
        };
        assert(approval_views(token.approvals@) =~= Seq::<(Seq<char>, u64)>::empty());
        self.ownership.set_owner(token_id.clone(), owner);
        match metadata {
            Some(m) => {
                self.metadata.set(token_id, m);
            },
            None => {},
        }
        self.usage = after;
        Ok(MintReceipt { token, bytes_added: added as u64, settlement })
    }

    /// Moves `token_id` to `receiver` once the call has passed every check of
    /// `transfer_refusal`, and hands back the former owner, the approvals
    /// taken away and the settlement that the move calls for.
    fn move_token(
        &mut self,
        ctx: &CallContext,
        sender: &String,
        receiver: &String,
        token_id: &String,
        approval_id: Option<u64>,
    ) -> (moved: Result<(String, Vec<Approval>, Settlement), LedgerError>)
        requires
            old(self).wf(),
        ensures
            final(self).wf(),
            match moved {
                Ok((previous_owner, revoked, settlement)) => {
                    &&& old(self)@.transfer_refusal(
                        ctx.caller@,
                        ctx.attached_deposit,
                        ctx.byte_cost,
                        token_id@,
                        sender@,
                        receiver@,
                        approval_id,
                    ).is_none()
                    &&& final(self)@ == old(self)@.transferred(token_id@, receiver@)
                    &&& final(self)@.bytes() == old(self)@.bytes() + old(self)@.transfer_delta(
                        token_id@,
                        receiver@,
                    )
                    &&& final(self)@.owner_of(token_id@) == Some(receiver@)
                    &&& !tokens_owned(final(self)@.holdings, sender@).contains(token_id@)
                    &&& final(self)@.grants_of(token_id@) == Seq::<(Seq<char>, u64)>::empty()
                    &&& old(self)@.owner_of(token_id@) == Some(previous_owner@)
                    &&& approval_views(revoked@) == old(self)@.grants_of(token_id@)
                    &&& Ok::<Settlement, LedgerError>(settlement) == spec_settlement(
                        ctx.byte_cost,
                        ctx.attached_deposit,
                        old(self)@.transfer_delta(token_id@, receiver@),
                    )
                },
                Err(e) => {
                    &&& old(self)@.transfer_refusal(
                        ctx.caller@,
                        ctx.attached_deposit,
                        ctx.byte_cost,
                        token_id@,
                        sender@,
                        receiver@,
                        approval_id,
                    ) == Some(e)
                    &&& final(self)@ == old(self)@
                },
            },
    {
        let place = match self.ownership.position(token_id) {
            Some(i) => i,
            None => {
                return Err(LedgerError::TokenNotFound);
            },
        };
        proof {
            lemma_index_of_key(self@.holdings, place as int);
        }
        let owner = self.ownership.owner_at(place).clone();
        if !(*sender == owner) {
            return Err(LedgerError::SenderMismatch);
        }
        if !(ctx.caller == owner) {
            match self.approvals.id_of(token_id, &ctx.caller) {
                Some(held) => match approval_id {
                    Some(given) => {
                        if given != held {
                            return Err(LedgerError::InvalidApproval);
                        }
                    },
                    None => {},
                },
                None => {
                    return Err(
                        match approval_id {
                            Some(_) => LedgerError::InvalidApproval,
                            None => LedgerError::Unauthorized,
                        },
                    );
                },
            }
        }
        if *receiver == owner {
            return Err(LedgerError::SelfTransferNoop);
        }
        if ctx.attached_deposit < ctx.byte_cost {
            return Err(LedgerError::InsufficientDeposit);
        }
        proof {
            lemma_weigh_bounds(self@.holdings, holding_weight(), place as int);
        }
        let freed: u128 = text_bytes_of(&owner) + self.approvals.grants_bytes(token_id) as u128;
        let delta: i128 = text_bytes_of(receiver) as i128 - freed as i128;
        if self.usage as i128 + delta > u64::MAX as i128 {
            return Err(LedgerError::ResourceExhausted);
        }
        proof {
            lemma_transferred(old(self)@, token_id@, receiver@);
        }
        let after: u64 = (self.usage as i128 + delta) as u64;
        let settlement = match self.settle_change(ctx, after) {
            Ok(s) => s,
            Err(e) => {
                return Err(e);
            },
        };
        self.ownership.set_owner(token_id.clone(), receiver.clone());
        let revoked = self.approvals.revoke_all(token_id);
        self.usage = after;
        Ok((owner, revoked, settlement))
    }

    /// Moves `token_id` from `sender`, its owner, to `receiver`. The owner
    /// may do so, and a delegate approved on the token. A receiver that owns
    /// the token already is refused. The call must bring at least the price
    /// of one byte.
    pub fn transfer(
        &mut self,
        ctx: &CallContext,
        sender: &String,
        receiver: &String,
        token_id: &String,
        approval_id: Option<u64>,
        memo: Option<String>,
    ) -> (receipt: Result<TransferReceipt, LedgerError>)
        requires
            old(self).wf(),
        ensures
            final(self).wf(),
            match receipt {
                Ok(r) => {
                    &&& old(self)@.transfer_refusal(
                        ctx.caller@,
                        ctx.attached_deposit,
                        ctx.byte_cost,
                        token_id@,
                        sender@,
                        receiver@,
                        approval_id,
                    ).is_none()
                    &&& final(self)@ == old(self)@.transferred(token_id@, receiver@)
                    &&& final(self)@.bytes() == old(self)@.bytes() + old(self)@.transfer_delta(
                        token_id@,
                        receiver@,
                    )
                    &&& final(self)@.owner_of(token_id@) == Some(receiver@)
                    &&& !tokens_owned(final(self)@.holdings, sender@).contains(token_id@)
                    &&& final(self)@.grants_of(token_id@) == Seq::<(Seq<char>, u64)>::empty()
                    &&& old(self)@.owner_of(token_id@) == Some(r.previous_owner@)
                    &&& opt_text_view(r.authorized) == (if ctx.caller@ == r.previous_owner@ {
                        None
                    } else {
                        Some(ctx.caller@)
                    })
                    &&& approval_views(r.revoked@) == old(self)@.grants_of(token_id@)
                    &&& r.memo == memo
                    &&& Ok::<Settlement, LedgerError>(r.settlement) == spec_settlement(
                        ctx.byte_cost,
                        ctx.attached_deposit,
                        old(self)@.transfer_delta(token_id@, receiver@),
                    )
                },
                Err(e) => {
                    &&& old(self)@.transfer_refusal(
                        ctx.caller@,
                        ctx.attached_deposit,
                        ctx.byte_cost,
                        token_id@,
                        sender@,
                        receiver@,
                        approval_id,
                    ) == Some(e)
                    &&& final(self)@ == old(self)@
                },
            },
    {
        match self.move_token(ctx, sender, receiver, token_id, approval_id) {
            Ok((previous_owner, revoked, settlement)) => {
                let authorized = if ctx.caller == previous_owner {
                    None
                } else {
                    Some(ctx.caller.clone())
                };
                Ok(TransferReceipt { previous_owner, authorized, revoked, memo, settlement })
            },
            Err(e) => Err(e),
        }
    }

    /// Burns `token_id`. Only its owner may do so, and must name itself as
    /// `owner`. The storage set free is paid back and the id is retired.
    pub fn burn(&mut self, ctx: &CallContext, token_id: &String, owner: &String) -> (receipt:
        Result<BurnReceipt, LedgerError>)
        requires
            old(self).wf(),
        ensures
            final(self).wf(),
            match receipt {
                Ok(r) => {
                    &&& old(self)@.burn_refusal(
                        ctx.caller@,
                        ctx.attached_deposit,
                        ctx.byte_cost,
                        token_id@,
                        owner@,
                    ).is_none()
                    &&& final(self)@ == old(self)@.burned(token_id@)
                    &&& r.owner@ == owner@
                    &&& r.bytes_freed == old(self)@.burn_bytes(token_id@)
                    &&& final(self)@.bytes() + r.bytes_freed == old(self)@.bytes()
                    &&& final(self)@.token(token_id@).is_none()
                    &&& final(self)@.total_supply() + 1 == old(self)@.total_supply()
                    &&& Ok::<Settlement, LedgerError>(r.settlement) == spec_settlement(
                        ctx.byte_cost,
                        ctx.attached_deposit,
                        -(r.bytes_freed as int),
                    )
                },
                Err(e) => {
                    &&& old(self)@.burn_refusal(
                        ctx.caller@,
                        ctx.attached_deposit,
                        ctx.byte_cost,
                        token_id@,
                        owner@,
                    ) == Some(e)
                    &&& final(self)@ == old(self)@
                },
            },
    {
        let place = match self.ownership.position(token_id) {
            Some(i) => i,
            None => {
                return Err(LedgerError::TokenNotFound);
            },
        };
        proof {
            lemma_index_of_key(self@.holdings, place as int);
        }
        if !(ctx.caller == *owner) || !(*owner == *self.ownership.owner_at(place)) {
            return Err(LedgerError::Unauthorized);
        }
        let id_bytes: u128 = text_bytes_of(token_id);
        let data_bytes: u128 = match self.metadata.find(token_id) {
            Some(at) => {
                proof {
                    lemma_index_of_key(self@.metadata, at as int);
                }
                id_bytes + self.metadata.value_at(at).bytes()
            },
            None => 0,
        };
        proof {
            lemma_weigh_bounds(self@.holdings, holding_weight(), place as int);
            if has_key(self@.metadata, token_id@) {
                lemma_weigh_bounds(
                    self@.metadata,
                    metadata_weight(),
                    index_of_key(self@.metadata, token_id@),
                );
            }
        }
        let freed: u128 = id_bytes + text_bytes_of(owner) + data_bytes
            + self.approvals.row_bytes(token_id) as u128;
        proof {
            lemma_burned(old(self)@, token_id@);
        }
        let after: u64 = (self.usage as u128 - freed) as u64;
        let settlement = match self.settle_change(ctx, after) {
            Ok(s) => s,
            Err(e) => {
                return Err(e);
            },
        };
        self.ownership.remove(token_id);
        self.metadata.take(token_id);
        self.approvals.forget(token_id);
        proof {
            lemma_without_row(old(self).retired@, token_id@, |row: (Seq<char>, ())| 0nat);
            lemma_with_row(old(self).retired@, token_id@, (), |row: (Seq<char>, ())| 0nat);
        }
        self.retired.set(token_id.clone(), ());
        self.usage = after;
        proof {
            assert(self@.retired =~= old(self)@.retired.insert(token_id@));
        }
        Ok(BurnReceipt { owner: owner.clone(), bytes_freed: freed as u64, settlement })
    }

    /// Approves `delegate` to move `token_id`. Only the token's owner may do
    /// so. A delegate approved before gets a new id; the old one is void.
    pub fn approve(&mut self, ctx: &CallContext, token_id: &String, delegate: &String) -> (receipt:
        Result<ApproveReceipt, LedgerError>)
        requires
            old(self).wf(),
        ensures
            final(self).wf(),
            match receipt {
                Ok(r) => {
                    &&& old(self)@.approve_refusal(
                        ctx.caller@,
                        ctx.attached_deposit,
                        ctx.byte_cost,
                        token_id@,
                        delegate@,
                    ).is_none()
                    &&& final(self)@ == old(self)@.approved(token_id@, delegate@)
                    &&& r.approval_id == set_of(old(self)@.approvals, token_id@).next_id
                    &&& r.bytes_added == old(self)@.approve_bytes(token_id@, delegate@)
                    &&& final(self)@.bytes() == old(self)@.bytes() + r.bytes_added
                    &&& final(self)@.is_approved(token_id@, delegate@, Some(r.approval_id))
                    &&& set_of(final(self)@.approvals, token_id@).next_id == r.approval_id + 1
                    &&& Ok::<Settlement, LedgerError>(r.settlement) == spec_settlement(
                        ctx.byte_cost,
                        ctx.attached_deposit,
                        r.bytes_added as int,
                    )
                },
                Err(e) => {
                    &&& old(self)@.approve_refusal(
                        ctx.caller@,
                        ctx.attached_deposit,
                        ctx.byte_cost,
                        token_id@,
                        delegate@,
                    ) == Some(e)
                    &&& final(self)@ == old(self)@
                },
            },
    {
        let place = match self.ownership.position(token_id) {
            Some(i) => i,
            None => {
                return Err(LedgerError::TokenNotFound);
            },
        };
        proof {
            lemma_index_of_key(self@.holdings, place as int);
        }
        if !(ctx.caller == *self.ownership.owner_at(place)) {
            return Err(LedgerError::Unauthorized);
        }
        if self.approvals.next_id(token_id) == u64::MAX {
            return Err(LedgerError::ResourceExhausted);
        }
        let row_bytes: u128 = if self.approvals.has_row(token_id) {
            0
        } else {
            text_bytes_of(token_id) + WORD_BYTES as u128
        };
        let grant: u128 = if self.approvals.id_of(token_id, delegate).is_some() {
            0
        } else {
            text_bytes_of(delegate) + WORD_BYTES as u128
        };
        let added: u128 = row_bytes + grant;
        let after: u64 = match add_bytes(self.usage, added) {
            Some(n) => n,
            None => {
                return Err(LedgerError::ResourceExhausted);
            },
        };
        let settlement = match self.settle_change(ctx, after) {
            Ok(s) => s,
            Err(e) => {
                return Err(e);
            },
        };
        proof {
            lemma_approved(old(self)@, token_id@, delegate@);
        }
        let approval_id = match self.approvals.approve(token_id, delegate.clone()) {
            Ok(id) => id,
            Err(e) => {
                return Err(e);
            },
        };
        self.usage = after;
        Ok(ApproveReceipt { approval_id, bytes_added: added as u64, settlement })
    }

    /// Takes the approval of `delegate` on `token_id` away. Only the token's
    /// owner may do so.
    pub fn revoke(&mut self, ctx: &CallContext, token_id: &String, delegate: &String) -> (receipt:
        Result<RevokeReceipt, LedgerError>)
        requires
            old(self).wf(),
        ensures
            final(self).wf(),
            match receipt {
                Ok(r) => {
                    &&& old(self)@.revoke_refusal(
                        ctx.caller@,
                        ctx.attached_deposit,
                        ctx.byte_cost,
                        token_id@,
                        delegate@,
                    ).is_none()
                    &&& final(self)@ == old(self)@.revoked(token_id@, delegate@)
                    &&& r.revoked@.len() == 1
                    &&& Some(r.revoked@[0]@.1) == lookup(
                        old(self)@.grants_of(token_id@),
                        delegate@,
                    )
                    &&& r.revoked@[0]@.0 == delegate@
                    &&& r.bytes_freed == approval_bytes(delegate@)
                    &&& final(self)@.bytes() + r.bytes_freed == old(self)@.bytes()
                    &&& !final(self)@.is_approved(token_id@, delegate@, None)
                    &&& Ok::<Settlement, LedgerError>(r.settlement) == spec_settlement(
                        ctx.byte_cost,
                        ctx.attached_deposit,
                        -(r.bytes_freed as int),
                    )
                },
                Err(e) => {
                    &&& old(self)@.revoke_refusal(
                        ctx.caller@,
                        ctx.attached_deposit,
                        ctx.byte_cost,
                        token_id@,
                        delegate@,
                    ) == Some(e)
                    &&& final(self)@ == old(self)@
                },
            },
    {
        let place = match self.ownership.position(token_id) {
            Some(i) => i,
            None => {
                return Err(LedgerError::TokenNotFound);
            },
        };
        proof {
            lemma_index_of_key(self@.holdings, place as int);
        }
        if !(ctx.caller == *self.ownership.owner_at(place)) {
            return Err(LedgerError::Unauthorized);
        }
        if self.approvals.id_of(token_id, delegate).is_none() {
            return Err(LedgerError::ApprovalNotFound);
        }
        proof {
            lemma_revoked(old(self)@, token_id@, delegate@);
        }
        let freed: u128 = text_bytes_of(delegate) + WORD_BYTES as u128;
        let after: u64 = (self.usage as u128 - freed) as u64;
        let settlement = match self.settle_change(ctx, after) {
            Ok(s) => s,
            Err(e) => {
                return Err(e);
            },
        };
        let approval_id = match self.approvals.revoke(token_id, delegate) {
            Ok(id) => id,
            Err(e) => {
                return Err(e);
            },
        };
        self.usage = after;
        let mut revoked: Vec<Approval> = Vec::new();
        revoked.push(Approval { delegate: delegate.clone(), approval_id });
        Ok(RevokeReceipt { revoked, bytes_freed: freed as u64, settlement })
    }

    /// Takes all approvals on `token_id` away. Only the token's owner may do
    /// so. The ids that were handed out stay void: the token's counter is not
    /// set back.
    pub fn revoke_all(&mut self, ctx: &CallContext, token_id: &String) -> (receipt: Result<
        RevokeReceipt,
        LedgerError,
    >)
        requires
            old(self).wf(),
        ensures
            final(self).wf(),
            match receipt {
                Ok(r) => {
                    &&& old(self)@.revoke_all_refusal(
                        ctx.caller@,
                        ctx.attached_deposit,
                        ctx.byte_cost,
                        token_id@,
                    ).is_none()
                    &&& final(self)@ == old(self)@.revoked_all(token_id@)
                    &&& approval_views(r.revoked@) == old(self)@.grants_of(token_id@)
                    &&& r.bytes_freed == grants_bytes(old(self)@.grants_of(token_id@))
                    &&& final(self)@.bytes() + r.bytes_freed == old(self)@.bytes()
                    &&& final(self)@.grants_of(token_id@) == Seq::<(Seq<char>, u64)>::empty()
                    &&& Ok::<Settlement, LedgerError>(r.settlement) == spec_settlement(
                        ctx.byte_cost,
                        ctx.attached_deposit,
                        -(r.bytes_freed as int),
                    )
                },
                Err(e) => {
                    &&& old(self)@.revoke_all_refusal(
                        ctx.caller@,
                        ctx.attached_deposit,
                        ctx.byte_cost,
                        token_id@,
                    ) == Some(e)
                    &&& final(self)@ == old(self)@
                },
            },
    {
        let place = match self.ownership.position(token_id) {
            Some(i) => i,
            None => {
                return Err(LedgerError::TokenNotFound);
            },
        };
        proof {
            lemma_index_of_key(self@.holdings, place as int);
        }
        if !(ctx.caller == *self.ownership.owner_at(place)) {
            return Err(LedgerError::Unauthorized);
        }
        let freed: u64 = self.approvals.grants_bytes(token_id);
        proof {
            lemma_revoked_all(old(self)@, token_id@);
        }
        let after: u64 = self.usage - freed;
        let settlement = match self.settle_change(ctx, after) {
            Ok(s) => s,
            Err(e) => {
                return Err(e);
            },
        };
        let revoked = self.approvals.revoke_all(token_id);
        self.usage = after;
        Ok(RevokeReceipt { revoked, bytes_freed: freed, settlement })
    }

    /// Moves `token_id` to `receiver` for the time being, as `transfer` does,
    /// and hands back what the receiver's hook is to be told. The deposit is
    /// settled by `resolve_transfer`, once the hook has answered.
    pub fn transfer_and_notify(
        &mut self,
        ctx: &CallContext,
        sender: &String,
        receiver: &String,
        token_id: &String,
        approval_id: Option<u64>,
        memo: Option<String>,
        payload: String,
    ) -> (pending: Result<PendingTransfer, LedgerError>)
        requires
            old(self).wf(),
        ensures
            final(self).wf(),
            match pending {
                Ok(p) => {
                    &&& old(self)@.transfer_refusal(
                        ctx.caller@,
                        ctx.attached_deposit,
                        ctx.byte_cost,
                        token_id@,
                        sender@,
                        receiver@,
                        approval_id,
                    ).is_none()
                    &&& final(self)@ == old(self)@.transferred(token_id@, receiver@)
                    &&& final(self)@.bytes() == old(self)@.bytes() + old(self)@.transfer_delta(
                        token_id@,
                        receiver@,
                    )
                    &&& final(self)@.owner_of(token_id@) == Some(receiver@)
                    &&& !tokens_owned(final(self)@.holdings, sender@).contains(token_id@)
                    &&& final(self)@.grants_of(token_id@) == Seq::<(Seq<char>, u64)>::empty()
                    &&& p.token_id@ == token_id@
                    &&& p.sender@ == ctx.caller@
                    &&& old(self)@.owner_of(token_id@) == Some(p.previous_owner@)
                    &&& p.receiver@ == receiver@
                    &&& approval_views(p.revoked@) == old(self)@.grants_of(token_id@)
                    &&& p.memo == memo
                    &&& p.payload == payload
                    &&& p.attached_deposit == ctx.attached_deposit
                    &&& Ok::<Settlement, LedgerError>(p.settlement) == spec_settlement(
                        ctx.byte_cost,
                        ctx.attached_deposit,
                        old(self)@.transfer_delta(token_id@, receiver@),
                    )
                },
                Err(e) => {
                    &&& old(self)@.transfer_refusal(
                        ctx.caller@,
                        ctx.attached_deposit,
                        ctx.byte_cost,
                        token_id@,
                        sender@,
                        receiver@,
                        approval_id,
                    ) == Some(e)
                    &&& final(self)@ == old(self)@
                },
            },
    {
        match self.move_token(ctx, sender, receiver, token_id, approval_id) {
            Ok((previous_owner, revoked, settlement)) => Ok(
                PendingTransfer {
                    token_id: token_id.clone(),
                    sender: ctx.caller.clone(),
                    previous_owner,
                    receiver: receiver.clone(),
                    revoked,
                    memo,
                    payload,
                    attached_deposit: ctx.attached_deposit,
                    settlement,
                },
            ),
            Err(e) => Err(e),
        }
    }

    /// Ends a pending transfer. Unless the hook accepted, the token goes back
    /// to its former owner with the approvals it had, where that can still be
    /// done; the whole deposit then goes back to the caller.
    pub fn resolve_transfer(&mut self, pending: PendingTransfer, verdict: HookVerdict) -> (outcome:
        TransferResolution)
        requires
            old(self).wf(),
        ensures
            final(self).wf(),
            outcome.kept == (verdict == HookVerdict::Accepted || !old(self)@.revertible(
                pending.token_id@,
                pending.previous_owner@,
                pending.receiver@,
                approval_views(pending.revoked@),
            )),
            final(self)@ == (if outcome.kept {
                old(self)@
            } else {
                old(self)@.reverted(
                    pending.token_id@,
                    pending.previous_owner@,
                    approval_views(pending.revoked@),
                )
            }),
            outcome.settlement == (if outcome.kept {
                pending.settlement
            } else {
                Settlement { charged: 0, refunded: pending.attached_deposit, released: 0 }
            }),
    {
        let stands = TransferResolution { kept: true, settlement: pending.settlement };
        match verdict {
            HookVerdict::Accepted => {
                return stands;
            },
            _ => {},
        }
        let place = match self.ownership.position(&pending.token_id) {
            Some(i) => i,
            None => {
                return stands;
            },
        };
        proof {
            lemma_index_of_key(self@.holdings, place as int);
            lemma_weigh_bounds(self@.holdings, holding_weight(), place as int);
        }
        if !(*self.ownership.owner_at(place) == pending.receiver) {
            return stands;
        }
        if !self.approvals.admits(&pending.token_id, &pending.revoked) {
            return stands;
        }
        let restored: u64 = match approvals_bytes(&pending.revoked) {
            Some(n) => n,
            None => {
                proof {
                    lemma_weigh_empty(grant_weight());
                    if has_key(self@.approvals, pending.token_id@) {
                        lemma_weigh_bounds(
                            self@.approvals,
                            set_weight(),
                            index_of_key(self@.approvals, pending.token_id@),
                        );
                    }
                }
                return stands;
            },
        };
        let row_bytes: u128 = if self.approvals.has_row(&pending.token_id)
            || pending.revoked.len() == 0 {
            0
        } else {
            text_bytes_of(&pending.token_id) + WORD_BYTES as u128
        };
        let delta: i128 = text_bytes_of(&pending.previous_owner) as i128 - text_bytes_of(
            &pending.receiver,
        ) as i128 + restored as i128 - self.approvals.grants_bytes(&pending.token_id) as i128
            + row_bytes as i128;
        assert(delta == self@.revert_delta(
            pending.token_id@,
            pending.previous_owner@,
            approval_views(pending.revoked@),
        ));
        if self.usage as i128 + delta > u64::MAX as i128 {
            return stands;
        }
        proof {
            lemma_reverted(
                old(self)@,
                pending.token_id@,
                pending.previous_owner@,
                pending.receiver@,
                approval_views(pending.revoked@),
            );
        }
        let attached = pending.attached_deposit;
        let restore = self.approvals.has_row(&pending.token_id) || pending.revoked.len() > 0;
        self.ownership.set_owner(pending.token_id.clone(), pending.previous_owner);
        if restore {
            self.approvals.restore(&pending.token_id, &pending.revoked);
        }
        self.usage = (self.usage as i128 + delta) as u64;
        proof {
            assert(self@ == old(self)@.reverted(
                pending.token_id@,
                pending.previous_owner@,
                approval_views(pending.revoked@),
            ));
        }
        TransferResolution {
            kept: false,
            settlement: Settlement { charged: 0, refunded: attached, released: 0 },
        }
    }

    /// The whole state of the ledger, to be stored.
    pub fn snapshot(&self) -> (snapshot: LedgerSnapshot)
        requires
            self.wf(),
        ensures
            snapshot@ == self@,
    {
        let mut metadata: Vec<Entry<TokenMetadata>> = Vec::new();
        let mut i: usize = 0;
        while i < self.metadata.len()
            invariant
                i <= self.metadata@.len(),
                metadata@.len() == i,
                forall|k: int|
                    0 <= k < i ==> #[trigger] entry_views(metadata@)[k] == self.metadata@[k],
            decreases self.metadata@.len() - i,
        {
            let ghost before = metadata@;
            metadata.push(
                Entry {
                    key: self.metadata.key_at(i).clone(),
                    value: self.metadata.value_at(i).duplicate(),
                },
            );
            proof {
                assert forall|k: int| 0 <= k < i + 1 implies #[trigger] entry_views(metadata@)[k]
                    == self.metadata@[k] by {
                    if k < i {
                        assert(metadata@[k] == before[k]);
                        assert(entry_views(before)[k] == self.metadata@[k]);
                    }
                }
            }
            i += 1;
        }
        assert(entry_views(metadata@) =~= self.metadata@);
        let mut retired: Vec<String> = Vec::new();
        let mut j: usize = 0;
        while j < self.retired.len()
            invariant
                j <= self.retired@.len(),
                retired@.len() == j,
                forall|k: int| 0 <= k < j ==> #[trigger] text_views(retired@)[k] == self.retired@[k].0,
            decreases self.retired@.len() - j,
        {
            let ghost before = retired@;
            retired.push(self.retired.key_at(j).clone());
            proof {
                assert forall|k: int| 0 <= k < j + 1 implies #[trigger] text_views(retired@)[k]
                    == self.retired@[k].0 by {
                    if k < j {
                        assert(retired@[k] == before[k]);
                        assert(text_views(before)[k] == self.retired@[k].0);
                    }
                }
            }
            j += 1;
        }
        let snapshot = LedgerSnapshot {
            minter: self.minter.clone(),
            metadata_required: self.metadata_required,
            owners: self.ownership.to_rows(),
            metadata,
            approvals: self.approvals.to_rows(),
            retired,
        };
        proof {
            let listed = text_views(snapshot.retired@);
            assert forall|t: Seq<char>| listed.to_set().contains(t) <==> has_key(
                self.retired@,
                t,
            ) by {
                if listed.contains(t) {
                    let k = choose|k: int| 0 <= k < listed.len() && listed[k] == t;
                    assert(self.retired@[k].0 == t);
                }
                if has_key(self.retired@, t) {
                    let k = index_of_key(self.retired@, t);
                    assert(listed[k] == t);
                }
            }
            assert(snapshot@.retired =~= self@.retired);
        }
        snapshot
    }

    /// The ledger that `snapshot` holds, unless what it holds is not a
    /// well-formed state.
    #[verifier::loop_isolation(false)]
    pub fn restore(snapshot: LedgerSnapshot) -> (ledger: Option<Self>)
        ensures
            match ledger {
                Some(l) => l.wf() && l@ == snapshot@,
                None => !snapshot@.wf(),
            },
    {
        let ghost target = snapshot@;
        let LedgerSnapshot {
            minter,
            metadata_required,
            owners,
            metadata: data,
            approvals: rows,
            retired: burned,
        } = snapshot;
        let ownership = match OwnershipIndex::from_rows(owners) {
            Some(x) => x,
            None => {
                return None;
            },
        };
        let metadata = match Table::collect(data) {
            Some(t) => t,
            None => {
                return None;
            },
        };
        let approvals = match ApprovalRegistry::from_rows(&rows) {
            Some(r) => r,
            None => {
                return None;
            },
        };
        let mut i: usize = 0;
        while i < metadata.len()
            invariant
                i <= metadata@.len(),
                ownership.wf(),
                ownership@ == target.holdings,
                metadata@ == target.metadata,
                forall|k: int| 0 <= k < i ==> has_key(ownership@, (#[trigger] metadata@[k]).0),
            decreases metadata@.len() - i,
        {
            if ownership.position(metadata.key_at(i)).is_none() {
                assert(has_key(metadata@, metadata@[i as int].0));
                return None;
            }
            i += 1;
        }
        let mut j: usize = 0;
        while j < approvals.len()
            invariant
                j <= approvals@.len(),
                ownership.wf(),
                ownership@ == target.holdings,
                approvals@ == target.approvals,
                forall|k: int| 0 <= k < j ==> has_key(ownership@, (#[trigger] approvals@[k]).0),
            decreases approvals@.len() - j,
        {
            if ownership.position(approvals.token_at(j)).is_none() {
                assert(has_key(approvals@, approvals@[j as int].0));
                return None;
            }
            j += 1;
        }
        let ghost listed = text_views(burned@);
        let mut retired: Table<()> = Table::new();
        let mut k: usize = 0;
        while k < burned.len()
            invariant
                k <= burned@.len(),
                listed == text_views(burned@),
                target.retired == listed.to_set(),
                ownership.wf(),
                ownership@ == target.holdings,
                retired.wf(),
                forall|t: Seq<char>|
                    #[trigger] has_key(retired@, t) <==> listed.take(k as int).contains(t),
                forall|n: int| 0 <= n < k ==> !has_key(ownership@, #[trigger] listed[n]),
            decreases burned@.len() - k,
        {
            if ownership.position(&burned[k]).is_some() {
                assert(listed[k as int] == burned@[k as int]@);
                assert(listed.contains(listed[k as int]));
                assert(target.retired.contains(listed[k as int]));
                assert(has_key(target.holdings, listed[k as int]));
                return None;
            }
            proof {
                lemma_with_row(retired@, burned@[k as int]@, (), |row: (Seq<char>, ())| 0nat);
                let prior = listed.take(k as int);
                let grown = listed.take(k + 1);
                assert(grown =~= prior.push(listed[k as int]));
                assert forall|t: Seq<char>|
                    grown.contains(t) <==> (t == listed[k as int] || prior.contains(t)) by {
                    if prior.contains(t) {
                        let n = choose|n: int| 0 <= n < prior.len() && prior[n] == t;
                        assert(grown[n] == t);
                    }
                    if t == listed[k as int] {
                        assert(grown[k as int] == t);
                    }
                    if grown.contains(t) {
                        let n = choose|n: int| 0 <= n < grown.len() && grown[n] == t;
                        if n < k {
                            assert(prior[n] == t);
                        }
                    }
                }
            }
            retired.set(burned[k].clone(), ());
            k += 1;
        }
        assert(listed.take(listed.len() as int) =~= listed);
        let owned: u64 = match ownership.bytes() {
            Some(n) => n,
            None => {
                return None;
            },
        };
        let described: u64 = match metadata_bytes_of(&metadata) {
            Some(n) => n,
            None => {
                return None;
            },
        };
        let approved: u64 = match approvals.bytes() {
            Some(n) => n,
            None => {
                return None;
            },
        };
        let usage: u64 = match add_bytes(owned, described as u128) {
            Some(n) => match add_bytes(n, approved as u128) {
                Some(all) => all,
                None => {
                    return None;
                },
            },
            None => {
                return None;
            },
        };
        let ledger = TokenLedger {
            minter,
            metadata_required,
            ownership,
            metadata,
            approvals,
            retired,
            usage,
        };
        proof {
            assert(ledger@.retired =~= target.retired);
            assert(ledger@ == target);
            assert forall|t: Seq<char>| #[trigger] has_key(ledger@.metadata, t) implies has_key(
                ledger@.holdings,
                t,
            ) by {
                let n = index_of_key(ledger@.metadata, t);
                assert(has_key(ledger@.holdings, ledger@.metadata[n].0));
            }
            assert forall|t: Seq<char>| #[trigger] has_key(ledger@.approvals, t) implies has_key(
                ledger@.holdings,
                t,
            ) by {
                let n = index_of_key(ledger@.approvals, t);
                assert(has_key(ledger@.holdings, ledger@.approvals[n].0));
            }
            assert forall|t: Seq<char>| #[trigger] ledger@.retired.contains(t) implies !has_key(
                ledger@.holdings,
                t,
            ) by {
                let n = choose|n: int| 0 <= n < listed.len() && listed[n] == t;
                assert(!has_key(ledger@.holdings, listed[n]));
            }
        }
        Some(ledger)
    }
}

} // verus!
