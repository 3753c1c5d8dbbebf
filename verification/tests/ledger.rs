use wrapped_appchain_nft::approval::Approval;
use wrapped_appchain_nft::error::LedgerError;
use wrapped_appchain_nft::ledger::{CallContext, HookVerdict, TokenLedger};
use wrapped_appchain_nft::metadata::TokenMetadata;
use wrapped_appchain_nft::storage::Settlement;

const PRICE: u128 = 10;
const AMPLE: u128 = 1_000_000;

fn id(s: &str) -> String {
    s.to_string()
}

fn call(caller: &str, attached: u128) -> CallContext {
    CallContext::at_price(id(caller), attached, PRICE)
}

fn titled(title: &str) -> TokenMetadata {
    let mut metadata = TokenMetadata::empty();
    metadata.title = Some(id(title));
    metadata
}

/// A ledger with the tokens "0" and "1" of alice and "2" of bob.
fn three_tokens() -> TokenLedger {
    let mut ledger = TokenLedger::new(id("minter"), false);
    ledger.mint(&call("minter", AMPLE), id("0"), id("alice"), None).unwrap();
    ledger.mint(&call("minter", AMPLE), id("1"), id("alice"), None).unwrap();
    ledger.mint(&call("minter", AMPLE), id("2"), id("bob"), None).unwrap();
    ledger
}

#[test]
fn new_ledger_is_empty() {
    let ledger = TokenLedger::new(id("minter"), true);
    assert_eq!(ledger.total_supply(), 0);
    assert_eq!(ledger.storage_usage(), 0);
    assert_eq!(ledger.minter(), &id("minter"));
    assert_eq!(ledger.owner_of(&id("0")), None);
    assert!(ledger.token(&id("0")).is_none());
    assert!(!ledger.is_retired(&id("0")));
}

#[test]
fn mint_sets_owner_and_lists_token() {
    let mut ledger = TokenLedger::new(id("minter"), false);
    let receipt = ledger.mint(&call("minter", 200), id("0"), id("alice"), None).unwrap();
    assert_eq!(receipt.token.token_id, id("0"));
    assert_eq!(receipt.token.owner_id, id("alice"));
    assert_eq!(receipt.token.metadata, None);
    assert!(receipt.token.approvals.is_empty());
    // "0" takes 4 + 1 bytes, "alice" 4 + 5.
    assert_eq!(receipt.bytes_added, 14);
    assert_eq!(receipt.settlement, Settlement { charged: 140, refunded: 60, released: 0 });
    assert_eq!(ledger.owner_of(&id("0")), Some(id("alice")));
    assert_eq!(ledger.token_ids_of(&id("alice")), vec![id("0")]);
    assert_eq!(ledger.total_supply(), 1);
    assert_eq!(ledger.storage_usage(), 14);
}

#[test]
fn mint_with_metadata_counts_its_bytes() {
    let mut ledger = TokenLedger::new(id("minter"), true);
    let receipt =
        ledger.mint(&call("minter", AMPLE), id("0"), id("alice"), Some(titled("Mons"))).unwrap();
    // owner row 14; data row: id 5, title 1 + 4 + 4, eleven empty fields.
    assert_eq!(receipt.bytes_added, 14 + 5 + 9 + 11);
    assert_eq!(receipt.token.metadata, Some(titled("Mons")));
    assert_eq!(ledger.token(&id("0")).unwrap().metadata, Some(titled("Mons")));
}

#[test]
fn mint_by_another_is_unauthorized() {
    let mut ledger = TokenLedger::new(id("minter"), false);
    let refused = ledger.mint(&call("alice", AMPLE), id("0"), id("alice"), None);
    assert_eq!(refused, Err(LedgerError::Unauthorized));
    assert_eq!(ledger.total_supply(), 0);
}

#[test]
fn mint_of_a_live_id_is_duplicate() {
    let mut ledger = three_tokens();
    let refused = ledger.mint(&call("minter", AMPLE), id("1"), id("carol"), None);
    assert_eq!(refused, Err(LedgerError::DuplicateToken));
    assert_eq!(ledger.owner_of(&id("1")), Some(id("alice")));
    assert_eq!(ledger.total_supply(), 3);
}

#[test]
fn mint_of_a_burned_id_is_duplicate() {
    let mut ledger = three_tokens();
    ledger.burn(&call("alice", 0), &id("1"), &id("alice")).unwrap();
    assert!(ledger.is_retired(&id("1")));
    let refused = ledger.mint(&call("minter", AMPLE), id("1"), id("carol"), None);
    assert_eq!(refused, Err(LedgerError::DuplicateToken));
    assert_eq!(ledger.total_supply(), 2);
}

#[test]
fn mint_without_required_metadata_is_invalid() {
    let mut ledger = TokenLedger::new(id("minter"), true);
    let refused = ledger.mint(&call("minter", AMPLE), id("0"), id("alice"), None);
    assert_eq!(refused, Err(LedgerError::InvalidMetadata));
    assert_eq!(ledger.total_supply(), 0);
}

#[test]
fn mint_below_cost_is_insufficient_deposit() {
    let mut ledger = TokenLedger::new(id("minter"), false);
    let refused = ledger.mint(&call("minter", 139), id("0"), id("alice"), None);
    assert_eq!(refused, Err(LedgerError::InsufficientDeposit));
    assert_eq!(ledger.total_supply(), 0);
    assert_eq!(ledger.storage_usage(), 0);
    let exact = ledger.mint(&call("minter", 140), id("0"), id("alice"), None).unwrap();
    assert_eq!(exact.settlement, Settlement { charged: 140, refunded: 0, released: 0 });
}

#[test]
fn mint_at_a_price_beyond_range_is_resource_exhausted() {
    let mut ledger = TokenLedger::new(id("minter"), false);
    let dear = CallContext::at_price(id("minter"), u128::MAX, u128::MAX);
    let refused = ledger.mint(&dear, id("0"), id("alice"), None);
    assert_eq!(refused, Err(LedgerError::ResourceExhausted));
    assert_eq!(ledger.total_supply(), 0);
}

#[test]
fn mint_checks_the_caller_first() {
    let mut ledger = three_tokens();
    let refused = ledger.mint(&call("alice", 0), id("1"), id("alice"), None);
    assert_eq!(refused, Err(LedgerError::Unauthorized));
}

#[test]
fn transfer_by_owner_moves_token() {
    let mut ledger = three_tokens();
    let receipt = ledger
        .transfer(&call("alice", 100), &id("alice"), &id("bob"), &id("0"), None, Some(id("gift")))
        .unwrap();
    assert_eq!(receipt.previous_owner, id("alice"));
    assert_eq!(receipt.authorized, None);
    assert!(receipt.revoked.is_empty());
    assert_eq!(receipt.memo, Some(id("gift")));
    // "bob" is two bytes shorter than "alice".
    assert_eq!(receipt.settlement, Settlement { charged: 0, refunded: 100, released: 20 });
    assert_eq!(ledger.owner_of(&id("0")), Some(id("bob")));
    assert_eq!(ledger.token_ids_of(&id("alice")), vec![id("1")]);
    assert_eq!(ledger.token_ids_of(&id("bob")), vec![id("0"), id("2")]);
    assert_eq!(ledger.total_supply(), 3);
}

#[test]
fn transfer_to_a_longer_name_is_charged() {
    let mut ledger = three_tokens();
    let before = ledger.storage_usage();
    let receipt = ledger
        .transfer(&call("bob", 100), &id("bob"), &id("charlotte"), &id("2"), None, None)
        .unwrap();
    assert_eq!(receipt.settlement, Settlement { charged: 60, refunded: 40, released: 0 });
    assert_eq!(ledger.storage_usage(), before + 6);
}

#[test]
fn transfer_of_unknown_token_is_not_found() {
    let mut ledger = three_tokens();
    let refused =
        ledger.transfer(&call("alice", 100), &id("alice"), &id("bob"), &id("9"), None, None);
    assert_eq!(refused, Err(LedgerError::TokenNotFound));
}

#[test]
fn transfer_from_wrong_sender_is_mismatch() {
    let mut ledger = three_tokens();
    let refused =
        ledger.transfer(&call("alice", 100), &id("bob"), &id("carol"), &id("0"), None, None);
    assert_eq!(refused, Err(LedgerError::SenderMismatch));
    assert_eq!(ledger.owner_of(&id("0")), Some(id("alice")));
}

#[test]
fn transfer_by_stranger_is_unauthorized() {
    let mut ledger = three_tokens();
    let refused =
        ledger.transfer(&call("mallory", 100), &id("alice"), &id("mallory"), &id("0"), None, None);
    assert_eq!(refused, Err(LedgerError::Unauthorized));
    assert_eq!(ledger.owner_of(&id("0")), Some(id("alice")));
}

#[test]
fn transfer_by_stranger_with_an_id_is_invalid_approval() {
    let mut ledger = three_tokens();
    let refused = ledger.transfer(
        &call("mallory", 100),
        &id("alice"),
        &id("mallory"),
        &id("0"),
        Some(1),
        None,
    );
    assert_eq!(refused, Err(LedgerError::InvalidApproval));
}

#[test]
fn transfer_to_the_owner_is_refused() {
    let mut ledger = three_tokens();
    let refused =
        ledger.transfer(&call("alice", 100), &id("alice"), &id("alice"), &id("0"), None, None);
    assert_eq!(refused, Err(LedgerError::SelfTransferNoop));
    assert_eq!(ledger.owner_of(&id("0")), Some(id("alice")));
}

#[test]
fn transfer_needs_the_price_of_one_byte() {
    let mut ledger = three_tokens();
    let refused =
        ledger.transfer(&call("alice", 9), &id("alice"), &id("bob"), &id("0"), None, None);
    assert_eq!(refused, Err(LedgerError::InsufficientDeposit));
    assert_eq!(ledger.owner_of(&id("0")), Some(id("alice")));
    assert!(ledger
        .transfer(&call("alice", 10), &id("alice"), &id("bob"), &id("0"), None, None)
        .is_ok());
}

#[test]
fn transfer_that_grows_needs_its_cost() {
    let mut ledger = three_tokens();
    let refused =
        ledger.transfer(&call("bob", 59), &id("bob"), &id("charlotte"), &id("2"), None, None);
    assert_eq!(refused, Err(LedgerError::InsufficientDeposit));
    assert_eq!(ledger.owner_of(&id("2")), Some(id("bob")));
}

#[test]
fn delegate_transfers_with_its_approval_id() {
    let mut ledger = three_tokens();
    let approval = ledger.approve(&call("alice", AMPLE), &id("0"), &id("dave")).unwrap();
    assert_eq!(approval.approval_id, 1);
    let receipt = ledger
        .transfer(&call("dave", 100), &id("alice"), &id("carol"), &id("0"), Some(1), None)
        .unwrap();
    assert_eq!(receipt.previous_owner, id("alice"));
    assert_eq!(receipt.authorized, Some(id("dave")));
    assert_eq!(receipt.revoked, vec![Approval { delegate: id("dave"), approval_id: 1 }]);
    assert_eq!(ledger.owner_of(&id("0")), Some(id("carol")));
}

#[test]
fn delegate_transfers_without_stating_an_id() {
    let mut ledger = three_tokens();
    ledger.approve(&call("alice", AMPLE), &id("0"), &id("dave")).unwrap();
    assert!(ledger
        .transfer(&call("dave", 100), &id("alice"), &id("carol"), &id("0"), None, None)
        .is_ok());
    assert_eq!(ledger.owner_of(&id("0")), Some(id("carol")));
}

#[test]
fn delegate_with_a_wrong_id_is_invalid_approval() {
    let mut ledger = three_tokens();
    ledger.approve(&call("alice", AMPLE), &id("0"), &id("dave")).unwrap();
    let refused =
        ledger.transfer(&call("dave", 100), &id("alice"), &id("carol"), &id("0"), Some(2), None);
    assert_eq!(refused, Err(LedgerError::InvalidApproval));
    assert_eq!(ledger.owner_of(&id("0")), Some(id("alice")));
}

#[test]
fn approvals_are_void_after_transfer() {
    let mut ledger = three_tokens();
    let approval = ledger.approve(&call("alice", AMPLE), &id("0"), &id("dave")).unwrap();
    ledger.transfer(&call("alice", 100), &id("alice"), &id("bob"), &id("0"), None, None).unwrap();
    assert!(!ledger.is_approved(&id("0"), &id("dave"), Some(approval.approval_id)));
    assert!(!ledger.is_approved(&id("0"), &id("dave"), None));
    assert!(ledger.token(&id("0")).unwrap().approvals.is_empty());
    let refused = ledger.transfer(
        &call("dave", 100),
        &id("bob"),
        &id("dave"),
        &id("0"),
        Some(approval.approval_id),
        None,
    );
    assert_eq!(refused, Err(LedgerError::InvalidApproval));
    assert_eq!(ledger.owner_of(&id("0")), Some(id("bob")));
}

#[test]
fn transfer_pays_back_the_approvals_it_clears() {
    let mut ledger = three_tokens();
    ledger.approve(&call("alice", AMPLE), &id("0"), &id("dave")).unwrap();
    ledger.approve(&call("alice", AMPLE), &id("0"), &id("erin")).unwrap();
    let before = ledger.storage_usage();
    let receipt = ledger
        .transfer(&call("alice", 100), &id("alice"), &id("carol"), &id("0"), None, None)
        .unwrap();
    // two approvals of 4 + 4 + 8 bytes each go; the owner's name keeps its length.
    assert_eq!(receipt.settlement, Settlement { charged: 0, refunded: 100, released: 320 });
    assert_eq!(ledger.storage_usage(), before - 32);
}

#[test]
fn approve_hands_out_growing_ids() {
    let mut ledger = three_tokens();
    let first = ledger.approve(&call("alice", AMPLE), &id("0"), &id("dave")).unwrap();
    let second = ledger.approve(&call("alice", AMPLE), &id("0"), &id("erin")).unwrap();
    let third = ledger.approve(&call("alice", AMPLE), &id("0"), &id("dave")).unwrap();
    assert_eq!((first.approval_id, second.approval_id, third.approval_id), (1, 2, 3));
    assert!(ledger.is_approved(&id("0"), &id("dave"), Some(3)));
    assert!(!ledger.is_approved(&id("0"), &id("dave"), Some(1)));
    assert!(ledger.is_approved(&id("0"), &id("erin"), Some(2)));
    assert!(ledger.is_approved(&id("0"), &id("erin"), None));
}

#[test]
fn approve_counts_each_token_apart() {
    let mut ledger = three_tokens();
    assert_eq!(ledger.approve(&call("alice", AMPLE), &id("0"), &id("dave")).unwrap().approval_id, 1);
    assert_eq!(ledger.approve(&call("alice", AMPLE), &id("1"), &id("dave")).unwrap().approval_id, 1);
    assert_eq!(ledger.approve(&call("bob", AMPLE), &id("2"), &id("dave")).unwrap().approval_id, 1);
    assert_eq!(ledger.approve(&call("alice", AMPLE), &id("1"), &id("erin")).unwrap().approval_id, 2);
}

#[test]
fn approve_after_revoke_all_gets_a_fresh_id() {
    let mut ledger = three_tokens();
    let first = ledger.approve(&call("alice", AMPLE), &id("0"), &id("dave")).unwrap();
    ledger.revoke_all(&call("alice", 0), &id("0")).unwrap();
    assert!(!ledger.is_approved(&id("0"), &id("dave"), None));
    let second = ledger.approve(&call("alice", AMPLE), &id("0"), &id("dave")).unwrap();
    assert_eq!(first.approval_id, 1);
    assert_eq!(second.approval_id, 2);
    assert!(!ledger.is_approved(&id("0"), &id("dave"), Some(first.approval_id)));
    assert!(ledger.is_approved(&id("0"), &id("dave"), Some(second.approval_id)));
}

#[test]
fn approve_after_transfer_goes_on_counting() {
    let mut ledger = three_tokens();
    ledger.approve(&call("alice", AMPLE), &id("0"), &id("dave")).unwrap();
    ledger.approve(&call("alice", AMPLE), &id("0"), &id("erin")).unwrap();
    ledger.transfer(&call("alice", 100), &id("alice"), &id("bob"), &id("0"), None, None).unwrap();
    let next = ledger.approve(&call("bob", AMPLE), &id("0"), &id("dave")).unwrap();
    assert_eq!(next.approval_id, 3);
}

#[test]
fn approve_is_charged_for_what_it_adds() {
    let mut ledger = three_tokens();
    let first = ledger.approve(&call("alice", 1000), &id("0"), &id("dave")).unwrap();
    // the token's row: 4 + 1 + 8; the approval: 4 + 4 + 8.
    assert_eq!(first.bytes_added, 29);
    assert_eq!(first.settlement, Settlement { charged: 290, refunded: 710, released: 0 });
    let second = ledger.approve(&call("alice", 1000), &id("0"), &id("erin")).unwrap();
    assert_eq!(second.bytes_added, 16);
    let again = ledger.approve(&call("alice", 1000), &id("0"), &id("erin")).unwrap();
    assert_eq!(again.bytes_added, 0);
    assert_eq!(again.settlement, Settlement { charged: 0, refunded: 1000, released: 0 });
}

#[test]
fn approve_refusals() {
    let mut ledger = three_tokens();
    assert_eq!(
        ledger.approve(&call("alice", AMPLE), &id("9"), &id("dave")),
        Err(LedgerError::TokenNotFound)
    );
    assert_eq!(
        ledger.approve(&call("bob", AMPLE), &id("0"), &id("dave")),
        Err(LedgerError::Unauthorized)
    );
    assert_eq!(
        ledger.approve(&call("alice", 289), &id("0"), &id("dave")),
        Err(LedgerError::InsufficientDeposit)
    );
    assert!(!ledger.is_approved(&id("0"), &id("dave"), None));
    assert!(ledger.token(&id("0")).unwrap().approvals.is_empty());
}

#[test]
fn revoke_takes_one_approval_away() {
    let mut ledger = three_tokens();
    ledger.approve(&call("alice", AMPLE), &id("0"), &id("dave")).unwrap();
    ledger.approve(&call("alice", AMPLE), &id("0"), &id("erin")).unwrap();
    let receipt = ledger.revoke(&call("alice", 5), &id("0"), &id("dave")).unwrap();
    assert_eq!(receipt.revoked, vec![Approval { delegate: id("dave"), approval_id: 1 }]);
    assert_eq!(receipt.bytes_freed, 16);
    assert_eq!(receipt.settlement, Settlement { charged: 0, refunded: 5, released: 160 });
    assert!(!ledger.is_approved(&id("0"), &id("dave"), None));
    assert!(ledger.is_approved(&id("0"), &id("erin"), Some(2)));
}

#[test]
fn revoke_refusals() {
    let mut ledger = three_tokens();
    ledger.approve(&call("alice", AMPLE), &id("0"), &id("dave")).unwrap();
    assert_eq!(
        ledger.revoke(&call("alice", 0), &id("9"), &id("dave")),
        Err(LedgerError::TokenNotFound)
    );
    assert_eq!(
        ledger.revoke(&call("dave", 0), &id("0"), &id("dave")),
        Err(LedgerError::Unauthorized)
    );
    assert_eq!(
        ledger.revoke(&call("alice", 0), &id("0"), &id("erin")),
        Err(LedgerError::ApprovalNotFound)
    );
    assert_eq!(
        ledger.revoke(&call("alice", 0), &id("1"), &id("dave")),
        Err(LedgerError::ApprovalNotFound)
    );
    assert!(ledger.is_approved(&id("0"), &id("dave"), Some(1)));
}

#[test]
fn revoke_all_takes_every_approval_away() {
    let mut ledger = three_tokens();
    ledger.approve(&call("alice", AMPLE), &id("0"), &id("dave")).unwrap();
    ledger.approve(&call("alice", AMPLE), &id("0"), &id("erin")).unwrap();
    let receipt = ledger.revoke_all(&call("alice", 0), &id("0")).unwrap();
    assert_eq!(
        receipt.revoked,
        vec![
            Approval { delegate: id("dave"), approval_id: 1 },
            Approval { delegate: id("erin"), approval_id: 2 },
        ]
    );
    assert_eq!(receipt.bytes_freed, 32);
    assert_eq!(receipt.settlement, Settlement { charged: 0, refunded: 0, released: 320 });
    assert!(!ledger.is_approved(&id("0"), &id("dave"), None));
    assert!(!ledger.is_approved(&id("0"), &id("erin"), None));
}

#[test]
fn revoke_all_without_approvals_changes_nothing() {
    let mut ledger = three_tokens();
    let before = ledger.storage_usage();
    let receipt = ledger.revoke_all(&call("alice", 3), &id("0")).unwrap();
    assert!(receipt.revoked.is_empty());
    assert_eq!(receipt.settlement, Settlement { charged: 0, refunded: 3, released: 0 });
    assert_eq!(ledger.storage_usage(), before);
}

#[test]
fn revoke_all_refusals() {
    let mut ledger = three_tokens();
    assert_eq!(ledger.revoke_all(&call("alice", 0), &id("9")), Err(LedgerError::TokenNotFound));
    assert_eq!(ledger.revoke_all(&call("bob", 0), &id("0")), Err(LedgerError::Unauthorized));
}

#[test]
fn is_approved_of_unknown_token_is_false() {
    let ledger = three_tokens();
    assert!(!ledger.is_approved(&id("9"), &id("dave"), None));
    assert!(!ledger.is_approved(&id("0"), &id("alice"), None));
}

#[test]
fn burn_removes_the_token_and_pays_back() {
    let mut ledger = TokenLedger::new(id("minter"), false);
    let minted =
        ledger.mint(&call("minter", AMPLE), id("0"), id("alice"), Some(titled("Mons"))).unwrap();
    let burned = ledger.burn(&call("alice", 0), &id("0"), &id("alice")).unwrap();
    assert_eq!(burned.owner, id("alice"));
    assert_eq!(burned.bytes_freed, minted.bytes_added);
    assert_eq!(burned.settlement.released, minted.settlement.charged);
    assert_eq!(burned.settlement.charged, 0);
    assert_eq!(ledger.total_supply(), 0);
    assert_eq!(ledger.storage_usage(), 0);
    assert_eq!(ledger.owner_of(&id("0")), None);
    assert!(ledger.token(&id("0")).is_none());
    assert!(ledger.token_ids_of(&id("alice")).is_empty());
    assert!(ledger.is_retired(&id("0")));
}

#[test]
fn burn_frees_the_approvals_too() {
    let mut ledger = three_tokens();
    let before = ledger.storage_usage();
    ledger.approve(&call("alice", AMPLE), &id("0"), &id("dave")).unwrap();
    let burned = ledger.burn(&call("alice", 0), &id("0"), &id("alice")).unwrap();
    assert_eq!(burned.bytes_freed, 14 + 29);
    assert_eq!(ledger.storage_usage(), before - 14);
    assert!(!ledger.is_approved(&id("0"), &id("dave"), None));
    assert_eq!(ledger.token_ids_of(&id("alice")), vec![id("1")]);
}

#[test]
fn burn_refusals() {
    let mut ledger = three_tokens();
    assert_eq!(
        ledger.burn(&call("alice", 0), &id("9"), &id("alice")),
        Err(LedgerError::TokenNotFound)
    );
    assert_eq!(
        ledger.burn(&call("bob", 0), &id("0"), &id("alice")),
        Err(LedgerError::Unauthorized)
    );
    assert_eq!(
        ledger.burn(&call("bob", 0), &id("0"), &id("bob")),
        Err(LedgerError::Unauthorized)
    );
    assert_eq!(ledger.total_supply(), 3);
    assert_eq!(ledger.owner_of(&id("0")), Some(id("alice")));
}

#[test]
fn accepted_transfer_call_stands() {
    let mut ledger = three_tokens();
    ledger.approve(&call("alice", AMPLE), &id("0"), &id("dave")).unwrap();
    let pending = ledger
        .transfer_and_notify(
            &call("alice", 100),
            &id("alice"),
            &id("bob"),
            &id("0"),
            None,
            Some(id("memo")),
            id("payload"),
        )
        .unwrap();
    assert_eq!(pending.token_id, id("0"));
    assert_eq!(pending.sender, id("alice"));
    assert_eq!(pending.previous_owner, id("alice"));
    assert_eq!(pending.receiver, id("bob"));
    assert_eq!(pending.payload, id("payload"));
    assert_eq!(pending.memo, Some(id("memo")));
    assert_eq!(pending.attached_deposit, 100);
    assert_eq!(pending.revoked, vec![Approval { delegate: id("dave"), approval_id: 1 }]);
    assert_eq!(ledger.owner_of(&id("0")), Some(id("bob")));
    let agreed = pending.settlement;
    assert_eq!(agreed, Settlement { charged: 0, refunded: 100, released: 180 });
    let outcome = ledger.resolve_transfer(pending, HookVerdict::Accepted);
    assert!(outcome.kept);
    assert_eq!(outcome.settlement, agreed);
    assert_eq!(ledger.owner_of(&id("0")), Some(id("bob")));
    assert!(!ledger.is_approved(&id("0"), &id("dave"), None));
}

#[test]
fn rejected_transfer_call_is_undone() {
    let mut ledger = three_tokens();
    ledger.approve(&call("alice", AMPLE), &id("0"), &id("dave")).unwrap();
    ledger.approve(&call("alice", AMPLE), &id("0"), &id("erin")).unwrap();
    let usage = ledger.storage_usage();
    let token = ledger.token(&id("0")).unwrap();
    let alices = ledger.token_ids_of(&id("alice"));
    let pending = ledger
        .transfer_and_notify(
            &call("alice", 100),
            &id("alice"),
            &id("bob"),
            &id("0"),
            None,
            None,
            id("payload"),
        )
        .unwrap();
    let outcome = ledger.resolve_transfer(pending, HookVerdict::Rejected);
    assert!(!outcome.kept);
    assert_eq!(outcome.settlement, Settlement { charged: 0, refunded: 100, released: 0 });
    assert_eq!(ledger.owner_of(&id("0")), Some(id("alice")));
    assert_eq!(ledger.token(&id("0")).unwrap(), token);
    assert_eq!(ledger.token_ids_of(&id("alice")), alices);
    assert_eq!(ledger.storage_usage(), usage);
    assert!(ledger.is_approved(&id("0"), &id("dave"), Some(1)));
    assert!(ledger.is_approved(&id("0"), &id("erin"), Some(2)));
    let next = ledger.approve(&call("alice", AMPLE), &id("0"), &id("frank")).unwrap();
    assert_eq!(next.approval_id, 3);
}

#[test]
fn failed_hook_counts_as_rejection() {
    let mut ledger = three_tokens();
    let pending = ledger
        .transfer_and_notify(
            &call("alice", 100),
            &id("alice"),
            &id("bob"),
            &id("0"),
            None,
            None,
            id(""),
        )
        .unwrap();
    let outcome = ledger.resolve_transfer(pending, HookVerdict::Failed);
    assert!(!outcome.kept);
    assert_eq!(ledger.owner_of(&id("0")), Some(id("alice")));
}

#[test]
fn transfer_call_is_refused_like_transfer() {
    let mut ledger = three_tokens();
    let refused = ledger.transfer_and_notify(
        &call("mallory", 100),
        &id("alice"),
        &id("mallory"),
        &id("0"),
        None,
        None,
        id(""),
    );
    assert_eq!(refused, Err(LedgerError::Unauthorized));
    assert_eq!(ledger.owner_of(&id("0")), Some(id("alice")));
}

#[test]
fn rejection_cannot_undo_what_has_moved_on() {
    let mut ledger = three_tokens();
    let pending = ledger
        .transfer_and_notify(
            &call("alice", 100),
            &id("alice"),
            &id("bob"),
            &id("0"),
            None,
            None,
            id(""),
        )
        .unwrap();
    ledger.transfer(&call("bob", 100), &id("bob"), &id("carol"), &id("0"), None, None).unwrap();
    let agreed = pending.settlement;
    let outcome = ledger.resolve_transfer(pending, HookVerdict::Rejected);
    assert!(outcome.kept);
    assert_eq!(outcome.settlement, agreed);
    assert_eq!(ledger.owner_of(&id("0")), Some(id("carol")));
}

#[test]
fn rejection_cannot_undo_a_burned_token() {
    let mut ledger = three_tokens();
    let pending = ledger
        .transfer_and_notify(
            &call("alice", 100),
            &id("alice"),
            &id("bob"),
            &id("0"),
            None,
            None,
            id(""),
        )
        .unwrap();
    ledger.burn(&call("bob", 0), &id("0"), &id("bob")).unwrap();
    let outcome = ledger.resolve_transfer(pending, HookVerdict::Rejected);
    assert!(outcome.kept);
    assert_eq!(ledger.owner_of(&id("0")), None);
    assert_eq!(ledger.total_supply(), 2);
}

#[test]
fn rejection_replaces_approvals_the_receiver_gave() {
    let mut ledger = three_tokens();
    ledger.approve(&call("alice", AMPLE), &id("0"), &id("dave")).unwrap();
    let usage = ledger.storage_usage();
    let pending = ledger
        .transfer_and_notify(
            &call("alice", 100),
            &id("alice"),
            &id("bob"),
            &id("0"),
            None,
            None,
            id(""),
        )
        .unwrap();
    ledger.approve(&call("bob", AMPLE), &id("0"), &id("zed")).unwrap();
    let outcome = ledger.resolve_transfer(pending, HookVerdict::Rejected);
    assert!(!outcome.kept);
    assert_eq!(ledger.owner_of(&id("0")), Some(id("alice")));
    assert!(ledger.is_approved(&id("0"), &id("dave"), Some(1)));
    assert!(!ledger.is_approved(&id("0"), &id("zed"), None));
    assert_eq!(ledger.storage_usage(), usage);
}

#[test]
fn stale_id_stays_void_when_the_delegate_is_approved_again() {
    let mut ledger = three_tokens();
    let stale = ledger.approve(&call("alice", AMPLE), &id("0"), &id("dave")).unwrap().approval_id;
    ledger.transfer(&call("alice", 100), &id("alice"), &id("bob"), &id("0"), None, None).unwrap();
    let fresh = ledger.approve(&call("bob", AMPLE), &id("0"), &id("dave")).unwrap().approval_id;
    assert!(fresh > stale);
    assert!(!ledger.is_approved(&id("0"), &id("dave"), Some(stale)));
    assert!(ledger.is_approved(&id("0"), &id("dave"), Some(fresh)));
    let refused =
        ledger.transfer(&call("dave", 100), &id("bob"), &id("dave"), &id("0"), Some(stale), None);
    assert_eq!(refused, Err(LedgerError::InvalidApproval));
    assert!(ledger
        .transfer(&call("dave", 100), &id("bob"), &id("dave"), &id("0"), Some(fresh), None)
        .is_ok());
}

#[test]
fn new_owner_moves_the_token_whatever_id_is_stated() {
    let mut ledger = three_tokens();
    let stale = ledger.approve(&call("alice", AMPLE), &id("0"), &id("dave")).unwrap().approval_id;
    ledger.transfer(&call("alice", 100), &id("alice"), &id("dave"), &id("0"), None, None).unwrap();
    assert!(ledger
        .transfer(&call("dave", 100), &id("dave"), &id("erin"), &id("0"), Some(stale), None)
        .is_ok());
    assert_eq!(ledger.owner_of(&id("0")), Some(id("erin")));
}

#[test]
fn refused_calls_leave_the_snapshot_as_it_was() {
    let mut ledger = three_tokens();
    ledger.approve(&call("alice", AMPLE), &id("0"), &id("dave")).unwrap();
    let before = ledger.snapshot();
    assert!(ledger.mint(&call("alice", AMPLE), id("9"), id("alice"), None).is_err());
    assert!(ledger.mint(&call("minter", 0), id("9"), id("alice"), None).is_err());
    assert!(ledger
        .transfer(&call("bob", 100), &id("alice"), &id("bob"), &id("0"), None, None)
        .is_err());
    assert!(ledger
        .transfer(&call("dave", 100), &id("alice"), &id("bob"), &id("0"), Some(7), None)
        .is_err());
    assert!(ledger.approve(&call("bob", AMPLE), &id("0"), &id("erin")).is_err());
    assert!(ledger.approve(&call("alice", 0), &id("0"), &id("erin")).is_err());
    assert!(ledger.revoke(&call("alice", 0), &id("0"), &id("erin")).is_err());
    assert!(ledger.revoke_all(&call("bob", 0), &id("0")).is_err());
    assert!(ledger.burn(&call("bob", 0), &id("0"), &id("alice")).is_err());
    assert_eq!(ledger.snapshot(), before);
}
