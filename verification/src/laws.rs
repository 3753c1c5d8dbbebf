//! What holds of the ledger over one call and over any run of calls.
//!
//! A run is a sequence of steps, each the change that one successful call
//! makes. The laws here speak of the states that runs go through; the calls of
//! `TokenLedger` are tied to them by their contracts, which name the same
//! changes.

use vstd::prelude::*;
use crate::approval::{grant_weight, lemma_set_of_wf, set_of, set_weight, FIRST_APPROVAL_ID};
use crate::error::LedgerError;
use crate::layout::lemma_weigh_empty;
use crate::metadata::TokenMetadataView;
use crate::model::{
    lemma_approved, lemma_burned, lemma_minted, lemma_reverted, lemma_revoked, lemma_revoked_all,
    lemma_transferred, metadata_weight, mint_bytes, LedgerView,
};
use crate::ownership::{holding_weight, tokens_owned};
use crate::storage::{spec_cost, spec_settlement};
use crate::table::{
    has_key, index_of_key, lemma_index_of_key, lemma_with_row, lemma_without_row, lookup,
};

verus! {

/// The change that one successful call makes.
pub ghost enum Step {
    Mint { token: Seq<char>, owner: Seq<char>, metadata: Option<TokenMetadataView> },
    Transfer { token: Seq<char>, receiver: Seq<char> },
    Burn { token: Seq<char> },
    Approve { token: Seq<char>, delegate: Seq<char> },
    Revoke { token: Seq<char>, delegate: Seq<char> },
    RevokeAll { token: Seq<char> },
    Revert { token: Seq<char>, previous_owner: Seq<char>, grants: Seq<(Seq<char>, u64)> },
}

impl LedgerView {
    /// Whether `step` can be taken: what every call checks of the state
    /// before it makes that change, whoever calls and whatever is attached.
    pub open spec fn admits(self, step: Step) -> bool {
        match step {
            Step::Mint { token, owner, metadata } => !self.is_live(token) && !self.retired.contains(
                token,
            ) && self.bytes() + mint_bytes(token, owner, metadata) <= u64::MAX,
            Step::Transfer { token, receiver } => self.is_live(token) && self.bytes()
                + self.transfer_delta(token, receiver) <= u64::MAX,
            Step::Burn { token } => self.is_live(token),
            Step::Approve { token, delegate } => self.is_live(token) && set_of(
                self.approvals,
                token,
            ).next_id < u64::MAX && self.bytes() + self.approve_bytes(token, delegate) <= u64::MAX,
            Step::Revoke { token, delegate } => self.is_live(token) && has_key(
                self.grants_of(token),
                delegate,
            ),
            Step::RevokeAll { token } => self.is_live(token),
            Step::Revert { token, previous_owner, grants } => self.is_live(token)
                && self.revertible(token, previous_owner, self.owner_of(token).unwrap(), grants),
        }
    }

    /// The state after `step`.
    pub open spec fn after(self, step: Step) -> LedgerView {
        match step {
            Step::Mint { token, owner, metadata } => self.minted(token, owner, metadata),
            Step::Transfer { token, receiver } => self.transferred(token, receiver),
            Step::Burn { token } => self.burned(token),
            Step::Approve { token, delegate } => self.approved(token, delegate),
            Step::Revoke { token, delegate } => self.revoked(token, delegate),
            Step::RevokeAll { token } => self.revoked_all(token),
            Step::Revert { token, previous_owner, grants } => self.reverted(
                token,
                previous_owner,
                grants,
            ),
        }
    }

    /// Whether the steps can be taken one after the other.
    pub open spec fn admits_run(self, steps: Seq<Step>) -> bool
        decreases steps.len(),
    {
        steps.len() == 0 || (self.admits(steps[0]) && self.after(steps[0]).admits_run(
            steps.drop_first(),
        ))
    }

    /// The state after the steps were taken one after the other.
    pub open spec fn after_run(self, steps: Seq<Step>) -> LedgerView
        decreases steps.len(),
    {
        if steps.len() == 0 {
            self
        } else {
            self.after(steps[0]).after_run(steps.drop_first())
        }
    }

    /// The id that the next approval on `token` gets.
    pub open spec fn next_approval_id(self, token: Seq<char>) -> u64 {
        set_of(self.approvals, token).next_id
    }
}

/// Whether `step` burns `token`.
pub open spec fn burns(step: Step, token: Seq<char>) -> bool {
    step == (Step::Burn { token })
}

/// Whether no step of the run burns `token`.
pub open spec fn spares(steps: Seq<Step>, token: Seq<char>) -> bool {
    forall|i: int| 0 <= i < steps.len() ==> !burns(#[trigger] steps[i], token)
}

/// Every step keeps the state well-formed. A token that the step does not
/// burn stays live, and its counter of approval ids does not fall.
pub proof fn lemma_step(s: LedgerView, step: Step, token: Seq<char>)
    requires
        s.wf(),
        s.admits(step),
    ensures
        s.after(step).wf(),
        s.is_live(token) && !burns(step, token) ==> s.after(step).is_live(token) && s.after(
            step,
        ).next_approval_id(token) >= s.next_approval_id(token),
{
    match step {
        Step::Mint { token: minted, owner, metadata } => {
            lemma_minted(s, minted, owner, metadata);
            lemma_with_row(s.holdings, minted, owner, holding_weight());
        },
        Step::Transfer { token: moved, receiver } => {
            lemma_transferred(s, moved, receiver);
            if has_key(s.approvals, moved) {
                lemma_with_row(
                    s.approvals,
                    moved,
                    set_of(s.approvals, moved).cleared(),
                    set_weight(),
                );
            }
        },
        Step::Burn { token: burned } => {
            lemma_burned(s, burned);
            lemma_without_row(s.holdings, burned, holding_weight());
            lemma_without_row(s.approvals, burned, set_weight());
        },
        Step::Approve { token: approved, delegate } => {
            lemma_approved(s, approved, delegate);
            lemma_with_row(
                s.approvals,
                approved,
                set_of(s.approvals, approved).approved(delegate),
                set_weight(),
            );
        },
        Step::Revoke { token: revoked, delegate } => {
            lemma_revoked(s, revoked, delegate);
            lemma_with_row(
                s.approvals,
                revoked,
                set_of(s.approvals, revoked).revoked(delegate),
                set_weight(),
            );
        },
        Step::RevokeAll { token: revoked } => {
            lemma_revoked_all(s, revoked);
            if has_key(s.approvals, revoked) {
                lemma_with_row(
                    s.approvals,
                    revoked,
                    set_of(s.approvals, revoked).cleared(),
                    set_weight(),
                );
            }
        },
        Step::Revert { token: moved, previous_owner, grants } => {
            lemma_reverted(s, moved, previous_owner, s.owner_of(moved).unwrap(), grants);
            lemma_with_row(s.holdings, moved, previous_owner, holding_weight());
            if has_key(s.approvals, moved) || grants.len() > 0 {
                lemma_with_row(
                    s.approvals,
                    moved,
                    set_of(s.approvals, moved).with_grants(grants),
                    set_weight(),
                );
            }
        },
    }
}

/// Every run keeps the state well-formed. A token that no step of the run
/// burns stays live, and its counter of approval ids does not fall.
pub proof fn lemma_run(s: LedgerView, steps: Seq<Step>, token: Seq<char>)
    requires
        s.wf(),
        s.admits_run(steps),
    ensures
        s.after_run(steps).wf(),
        s.is_live(token) && spares(steps, token) ==> s.after_run(steps).is_live(token)
            && s.after_run(steps).next_approval_id(token) >= s.next_approval_id(token),
    decreases steps.len(),
{
    if steps.len() > 0 {
        lemma_step(s, steps[0], token);
        lemma_run(s.after(steps[0]), steps.drop_first(), token);
    }
}

/// A call that is not refused makes a step that the state admits.
pub proof fn lemma_accepted_calls_are_steps(
    s: LedgerView,
    caller: Seq<char>,
    attached: u128,
    byte_cost: u128,
    token: Seq<char>,
    other: Seq<char>,
    metadata: Option<TokenMetadataView>,
    approval_id: Option<u64>,
)
    requires
        s.wf(),
    ensures
        s.mint_refusal(caller, attached, byte_cost, token, other, metadata).is_none() ==> s.admits(
            Step::Mint { token, owner: other, metadata },
        ),
        s.transfer_refusal(
            caller,
            attached,
            byte_cost,
            token,
            s.owner_of(token).unwrap(),
            other,
            approval_id,
        ).is_none() ==> s.admits(Step::Transfer { token, receiver: other }),
        s.burn_refusal(caller, attached, byte_cost, token, caller).is_none() ==> s.admits(
            Step::Burn { token },
        ),
        s.approve_refusal(caller, attached, byte_cost, token, other).is_none() ==> s.admits(
            Step::Approve { token, delegate: other },
        ),
        s.revoke_refusal(caller, attached, byte_cost, token, other).is_none() ==> s.admits(
            Step::Revoke { token, delegate: other },
        ),
        s.revoke_all_refusal(caller, attached, byte_cost, token).is_none() ==> s.admits(
            Step::RevokeAll { token },
        ),
{}

/// A token that was minted belongs to the owner it was minted to and stands
/// among that owner's tokens.
pub proof fn lemma_mint_sets_owner(
    s: LedgerView,
    caller: Seq<char>,
    attached: u128,
    byte_cost: u128,
    token: Seq<char>,
    owner: Seq<char>,
    metadata: Option<TokenMetadataView>,
)
    requires
        s.wf(),
        s.mint_refusal(caller, attached, byte_cost, token, owner, metadata).is_none(),
    ensures
        s.minted(token, owner, metadata).owner_of(token) == Some(owner),
        tokens_owned(s.minted(token, owner, metadata).holdings, owner).contains(token),
        s.minted(token, owner, metadata).total_supply() == s.total_supply() + 1,
{
    lemma_minted(s, token, owner, metadata);
}

/// After a transfer the token belongs to the receiver and no longer stands
/// among the former owner's tokens; no approval given before the transfer is
/// good any more, under whatever id.
pub proof fn lemma_transfer_moves_token(
    s: LedgerView,
    caller: Seq<char>,
    attached: u128,
    byte_cost: u128,
    token: Seq<char>,
    sender: Seq<char>,
    receiver: Seq<char>,
    approval_id: Option<u64>,
)
    requires
        s.wf(),
        s.transfer_refusal(caller, attached, byte_cost, token, sender, receiver, approval_id)
            .is_none(),
    ensures
        s.owner_of(token) == Some(sender),
        s.transferred(token, receiver).owner_of(token) == Some(receiver),
        !tokens_owned(s.transferred(token, receiver).holdings, sender).contains(token),
        tokens_owned(s.transferred(token, receiver).holdings, receiver).contains(token),
        forall|delegate: Seq<char>, id: Option<u64>|
            !(#[trigger] s.transferred(token, receiver).is_approved(token, delegate, id)),
        s.transferred(token, receiver).total_supply() == s.total_supply(),
{
    lemma_transferred(s, token, receiver);
}

/// After a transfer, a call that moves the token on under an approval id is
/// refused with `InvalidApproval`, whoever but the new owner makes it and
/// whatever the id.
pub proof fn lemma_stale_approval_is_refused(
    s: LedgerView,
    token: Seq<char>,
    receiver: Seq<char>,
    delegate: Seq<char>,
    stale_id: u64,
    attached: u128,
    byte_cost: u128,
    next_receiver: Seq<char>,
)
    requires
        s.wf(),
        s.admits(Step::Transfer { token, receiver }),
        delegate != receiver,
    ensures
        s.transferred(token, receiver).transfer_refusal(
            delegate,
            attached,
            byte_cost,
            token,
            receiver,
            next_receiver,
            Some(stale_id),
        ) == Some(LedgerError::InvalidApproval),
{
    lemma_transferred(s, token, receiver);
}

/// Whether `step` undoes a transfer of `token`.
pub open spec fn reverts(step: Step, token: Seq<char>) -> bool {
    match step {
        Step::Revert { token: moved, previous_owner, grants } => moved == token,
        _ => false,
    }
}

/// Whether every approval that stands on `token`, and every one to come, has
/// an id of `bound` or more.
pub open spec fn ids_from(s: LedgerView, token: Seq<char>, bound: u64) -> bool {
    &&& s.next_approval_id(token) >= bound
    &&& forall|delegate: Seq<char>|
        match #[trigger] lookup(s.grants_of(token), delegate) {
            Some(id) => id >= bound,
            None => true,
        }
}

/// A step that neither burns a token nor undoes a transfer of it brings no
/// approval with an id below a bound that the token's ids have reached.
pub proof fn lemma_step_ids_from(s: LedgerView, step: Step, token: Seq<char>, bound: u64)
    requires
        s.wf(),
        s.admits(step),
        s.is_live(token),
        ids_from(s, token, bound),
        !burns(step, token),
        !reverts(step, token),
    ensures
        ids_from(s.after(step), token, bound),
{
    let after = s.after(step);
    let set = set_of(s.approvals, token);
    lemma_step(s, step, token);
    lemma_set_of_wf(s.approvals, token);
    assert forall|delegate: Seq<char>|
        match #[trigger] lookup(after.grants_of(token), delegate) {
            Some(id) => id >= bound,
            None => true,
        } by {
        match step {
            Step::Mint { token: minted, owner, metadata } => {},
            Step::Transfer { token: moved, receiver } => {
                lemma_transferred(s, moved, receiver);
                if has_key(s.approvals, moved) {
                    lemma_with_row(
                        s.approvals,
                        moved,
                        set_of(s.approvals, moved).cleared(),
                        set_weight(),
                    );
                }
                if moved == token {
                    assert(!has_key(after.grants_of(token), delegate));
                }
            },
            Step::Burn { token: burned } => {
                lemma_without_row(s.approvals, burned, set_weight());
            },
            Step::Approve { token: approved, delegate: given } => {
                lemma_with_row(
                    s.approvals,
                    approved,
                    set_of(s.approvals, approved).approved(given),
                    set_weight(),
                );
                if approved == token {
                    lemma_with_row(set.grants, given, set.next_id, grant_weight());
                }
            },
            Step::Revoke { token: revoked, delegate: taken } => {
                lemma_with_row(
                    s.approvals,
                    revoked,
                    set_of(s.approvals, revoked).revoked(taken),
                    set_weight(),
                );
                if revoked == token {
                    lemma_without_row(set.grants, taken, grant_weight());
                }
            },
            Step::RevokeAll { token: revoked } => {
                lemma_revoked_all(s, revoked);
                if has_key(s.approvals, revoked) {
                    lemma_with_row(
                        s.approvals,
                        revoked,
                        set_of(s.approvals, revoked).cleared(),
                        set_weight(),
                    );
                }
                if revoked == token {
                    assert(!has_key(after.grants_of(token), delegate));
                }
            },
            Step::Revert { token: moved, previous_owner, grants } => {
                if has_key(s.approvals, moved) || grants.len() > 0 {
                    lemma_with_row(
                        s.approvals,
                        moved,
                        set_of(s.approvals, moved).with_grants(grants),
                        set_weight(),
                    );
                }
            },
        }
    }
}

/// Whether no step of the run burns `token` or undoes a transfer of it.
pub open spec fn keeps(steps: Seq<Step>, token: Seq<char>) -> bool {
    forall|i: int|
        0 <= i < steps.len() ==> !burns(#[trigger] steps[i], token) && !reverts(steps[i], token)
}

/// A run that neither burns a token nor undoes a transfer of it brings no
/// approval with an id below a bound that the token's ids have reached.
pub proof fn lemma_run_ids_from(s: LedgerView, steps: Seq<Step>, token: Seq<char>, bound: u64)
    requires
        s.wf(),
        s.admits_run(steps),
        s.is_live(token),
        ids_from(s, token, bound),
        keeps(steps, token),
    ensures
        ids_from(s.after_run(steps), token, bound),
    decreases steps.len(),
{
    if steps.len() > 0 {
        assert(!burns(steps[0], token) && !reverts(steps[0], token));
        lemma_step(s, steps[0], token);
        lemma_step_ids_from(s, steps[0], token, bound);
        assert forall|i: int| 0 <= i < steps.drop_first().len() implies !burns(
            #[trigger] steps.drop_first()[i],
            token,
        ) && !reverts(steps.drop_first()[i], token) by {
            assert(steps.drop_first()[i] == steps[i + 1]);
        }
        lemma_run_ids_from(s.after(steps[0]), steps.drop_first(), token, bound);
    }
}

/// An approval id that was handed out before a transfer is void for good:
/// whatever calls follow the transfer, short of burning the token or undoing
/// an earlier transfer of it, no delegate is approved under that id again.
pub proof fn lemma_stale_ids_stay_void(
    s: LedgerView,
    token: Seq<char>,
    receiver: Seq<char>,
    later: Seq<Step>,
    delegate: Seq<char>,
    stale_id: u64,
)
    requires
        s.wf(),
        s.admits(Step::Transfer { token, receiver }),
        s.transferred(token, receiver).admits_run(later),
        keeps(later, token),
        stale_id < s.next_approval_id(token),
    ensures
        !s.transferred(token, receiver).after_run(later).is_approved(
            token,
            delegate,
            Some(stale_id),
        ),
{
    let moved = s.transferred(token, receiver);
    let bound = s.next_approval_id(token);
    lemma_transferred(s, token, receiver);
    assert forall|d: Seq<char>|
        match #[trigger] lookup(moved.grants_of(token), d) {
            Some(id) => id >= bound,
            None => true,
        } by {
        assert(!has_key(moved.grants_of(token), d));
    }
    lemma_run_ids_from(moved, later, token, bound);
    let end = moved.after_run(later);
    assert(match lookup(end.grants_of(token), delegate) {
        Some(id) => id >= bound,
        None => true,
    });
}

/// An approval id is never given twice while a token lives: whatever calls
/// come between two approvals on the token, revocations of all its approvals
/// and transfers among them, the later approval gets a larger id than the
/// earlier one.
pub proof fn lemma_approval_ids_never_repeat(
    s: LedgerView,
    token: Seq<char>,
    first: Seq<char>,
    between: Seq<Step>,
    second: Seq<char>,
)
    requires
        s.wf(),
        s.admits(Step::Approve { token, delegate: first }),
        s.approved(token, first).admits_run(between),
        spares(between, token),
    ensures
        s.approved(token, first).after_run(between).next_approval_id(token) > s.next_approval_id(
            token,
        ),
        s.next_approval_id(token) >= FIRST_APPROVAL_ID,
{
    lemma_approved(s, token, first);
    lemma_step(s, Step::Approve { token, delegate: first }, token);
    lemma_run(s.approved(token, first), between, token);
    lemma_set_of_wf(s.approvals, token);
}

/// A transfer that is undone leaves no trace: the state that comes back is
/// the state before the transfer, with its owners, approvals, counters and
/// accounted size.
pub proof fn lemma_rejected_transfer_restores(
    s: LedgerView,
    token: Seq<char>,
    receiver: Seq<char>,
)
    requires
        s.wf(),
        s.is_live(token),
        s.bytes() + s.transfer_delta(token, receiver) <= u64::MAX,
    ensures
        s.transferred(token, receiver).revertible(
            token,
            s.owner_of(token).unwrap(),
            receiver,
            s.grants_of(token),
        ),
        s.transferred(token, receiver).reverted(
            token,
            s.owner_of(token).unwrap(),
            s.grants_of(token),
        ) == s,
{
    let owner = s.owner_of(token).unwrap();
    let grants = s.grants_of(token);
    let moved = s.transferred(token, receiver);
    let back = moved.reverted(token, owner, grants);
    let set = set_of(s.approvals, token);
    lemma_transferred(s, token, receiver);
    lemma_set_of_wf(s.approvals, token);
    lemma_with_row(s.holdings, token, receiver, holding_weight());
    lemma_weigh_empty(grant_weight());
    let at = index_of_key(s.holdings, token);
    lemma_index_of_key(moved.holdings, at);
    assert(back.holdings =~= s.holdings);
    if has_key(s.approvals, token) {
        let row = index_of_key(s.approvals, token);
        lemma_with_row(s.approvals, token, set.cleared(), set_weight());
        lemma_index_of_key(moved.approvals, row);
        assert(back.approvals =~= s.approvals);
    }
}

/// What growing the state from `before` to `after` bytes costs is what
/// shrinking it from `after` to `before` pays back, at one price. A token
/// that is minted and then burned leaves the accounted size as it was, and
/// the burn sets free the bytes that the mint was charged for.
pub proof fn lemma_mint_then_burn_nets_zero(
    s: LedgerView,
    token: Seq<char>,
    owner: Seq<char>,
    metadata: Option<TokenMetadataView>,
    byte_cost: u128,
)
    requires
        s.wf(),
        s.admits(Step::Mint { token, owner, metadata }),
    ensures
        s.minted(token, owner, metadata).admits(Step::Burn { token }),
        s.minted(token, owner, metadata).burn_bytes(token) == mint_bytes(token, owner, metadata),
        s.minted(token, owner, metadata).burned(token).bytes() == s.bytes(),
        spec_cost(byte_cost, mint_bytes(token, owner, metadata) as int) == spec_cost(
            byte_cost,
            -(s.minted(token, owner, metadata).burn_bytes(token) as int),
        ),
        forall|attached: u128, at_burn: u128|
            (#[trigger] spec_settlement(
                byte_cost,
                attached,
                mint_bytes(token, owner, metadata) as int,
            )).is_ok() ==> (#[trigger] spec_settlement(
                byte_cost,
                at_burn,
                -(s.minted(token, owner, metadata).burn_bytes(token) as int),
            )).is_ok() && spec_settlement(
                byte_cost,
                at_burn,
                -(s.minted(token, owner, metadata).burn_bytes(token) as int),
            ).unwrap().released == spec_settlement(
                byte_cost,
                attached,
                mint_bytes(token, owner, metadata) as int,
            ).unwrap().charged,
{
    let minted = s.minted(token, owner, metadata);
    lemma_minted(s, token, owner, metadata);
    lemma_burned(minted, token);
    lemma_with_row(s.holdings, token, owner, holding_weight());
    match metadata {
        Some(m) => {
            lemma_with_row(s.metadata, token, m, metadata_weight());
        },
        None => {},
    }
}

} // verus!
