use wrapped_appchain_nft::contract::WrappedAppchainNFT;
use wrapped_appchain_nft::error::LedgerError;
use wrapped_appchain_nft::ledger::{CallContext, HookVerdict};
use wrapped_appchain_nft::metadata::{ContractMetadata, TokenMetadata};
use wrapped_appchain_nft::storage::{Settlement, PROTOCOL_BYTE_COST};

const ONE_NEAR: u128 = 1_000_000_000_000_000_000_000_000;

fn acct(s: &str) -> String {
    s.to_string()
}

fn deployed() -> WrappedAppchainNFT {
    let metadata = ContractMetadata {
        spec: acct("nft-1.0.0"),
        name: acct("Wrapped appchain NFT"),
        symbol: acct("WNFT"),
        icon: None,
        base_uri: None,
        reference: None,
        reference_hash: None,
    };
    WrappedAppchainNFT::new(false, acct("nft.near"), metadata).unwrap()
}

fn from(caller: &str) -> CallContext {
    CallContext::new(acct(caller), ONE_NEAR)
}

/// A contract with the tokens "0" of alice.near and "1" of bob.near.
fn with_two_tokens() -> WrappedAppchainNFT {
    let mut contract = deployed();
    contract
        .nft_mint(&from("nft.near"), acct("0"), acct("alice.near"), TokenMetadata::empty())
        .unwrap();
    contract
        .nft_mint(&from("nft.near"), acct("1"), acct("bob.near"), TokenMetadata::empty())
        .unwrap();
    contract
}

#[test]
fn context_takes_the_protocol_price() {
    let ctx = CallContext::new(acct("alice.near"), 5);
    assert_eq!(ctx.caller, acct("alice.near"));
    assert_eq!(ctx.attached_deposit, 5);
    assert_eq!(ctx.byte_cost, PROTOCOL_BYTE_COST);
    let priced = CallContext::at_price(acct("alice.near"), 5, 3);
    assert_eq!(priced.byte_cost, 3);
}

#[test]
fn nft_mint_by_owner_only() {
    let mut contract = deployed();
    let refused =
        contract.nft_mint(&from("alice.near"), acct("0"), acct("alice.near"), TokenMetadata::empty());
    assert_eq!(refused, Err(LedgerError::Unauthorized));
    assert_eq!(contract.nft_total_supply(), 0);
}

#[test]
fn nft_mint_charges_and_refunds() {
    let mut contract = deployed();
    let receipt = contract
        .nft_mint(&from("nft.near"), acct("0"), acct("alice.near"), TokenMetadata::empty())
        .unwrap();
    // owner row 5 + 14, data row 5 + 12.
    assert_eq!(receipt.bytes_added, 36);
    assert_eq!(
        receipt.settlement,
        Settlement {
            charged: 36 * PROTOCOL_BYTE_COST,
            refunded: ONE_NEAR - 36 * PROTOCOL_BYTE_COST,
            released: 0
        }
    );
    assert_eq!(receipt.settlement.charged + receipt.settlement.refunded, ONE_NEAR);
    assert_eq!(contract.storage_usage(), 36);
    assert_eq!(contract.nft_token(&acct("0")), Some(receipt.token));
}

#[test]
fn nft_mint_twice_is_duplicate() {
    let mut contract = with_two_tokens();
    let refused =
        contract.nft_mint(&from("nft.near"), acct("1"), acct("carol.near"), TokenMetadata::empty());
    assert_eq!(refused, Err(LedgerError::DuplicateToken));
    assert_eq!(contract.nft_total_supply(), 2);
}

#[test]
fn nft_transfer_by_owner() {
    let mut contract = with_two_tokens();
    let receipt = contract
        .nft_transfer(&from("alice.near"), &acct("carol.near"), &acct("0"), None, None)
        .unwrap();
    assert_eq!(receipt.previous_owner, acct("alice.near"));
    assert_eq!(contract.nft_token(&acct("0")).unwrap().owner_id, acct("carol.near"));
    assert!(contract.nft_tokens_for_owner(&acct("alice.near"), None, None).is_empty());
}

#[test]
fn nft_transfer_refusals() {
    let mut contract = with_two_tokens();
    assert_eq!(
        contract.nft_transfer(&from("alice.near"), &acct("bob.near"), &acct("7"), None, None),
        Err(LedgerError::TokenNotFound)
    );
    assert_eq!(
        contract.nft_transfer(&from("bob.near"), &acct("bob.near"), &acct("0"), None, None),
        Err(LedgerError::Unauthorized)
    );
    assert_eq!(
        contract.nft_transfer(&from("bob.near"), &acct("bob.near"), &acct("0"), Some(1), None),
        Err(LedgerError::InvalidApproval)
    );
    assert_eq!(
        contract.nft_transfer(&from("alice.near"), &acct("alice.near"), &acct("0"), None, None),
        Err(LedgerError::SelfTransferNoop)
    );
    let penniless = CallContext::new(acct("alice.near"), PROTOCOL_BYTE_COST - 1);
    assert_eq!(
        contract.nft_transfer(&penniless, &acct("bob.near"), &acct("0"), None, None),
        Err(LedgerError::InsufficientDeposit)
    );
    assert_eq!(contract.nft_token(&acct("0")).unwrap().owner_id, acct("alice.near"));
}

#[test]
fn nft_approve_revoke_and_revoke_all() {
    let mut contract = with_two_tokens();
    let first = contract.nft_approve(&from("alice.near"), &acct("0"), &acct("dave.near")).unwrap();
    let second = contract.nft_approve(&from("alice.near"), &acct("0"), &acct("erin.near")).unwrap();
    assert_eq!((first.approval_id, second.approval_id), (1, 2));
    assert!(contract.nft_is_approved(&acct("0"), &acct("dave.near"), Some(1)));
    let revoked = contract.nft_revoke(&from("alice.near"), &acct("0"), &acct("dave.near")).unwrap();
    assert_eq!(revoked.settlement.released, 21 * PROTOCOL_BYTE_COST);
    assert!(!contract.nft_is_approved(&acct("0"), &acct("dave.near"), None));
    contract.nft_revoke_all(&from("alice.near"), &acct("0")).unwrap();
    assert!(!contract.nft_is_approved(&acct("0"), &acct("erin.near"), None));
    let third = contract.nft_approve(&from("alice.near"), &acct("0"), &acct("dave.near")).unwrap();
    assert_eq!(third.approval_id, 3);
    assert_eq!(
        contract.nft_approve(&from("bob.near"), &acct("0"), &acct("dave.near")),
        Err(LedgerError::Unauthorized)
    );
    assert_eq!(
        contract.nft_revoke(&from("alice.near"), &acct("0"), &acct("erin.near")),
        Err(LedgerError::ApprovalNotFound)
    );
    assert_eq!(
        contract.nft_revoke_all(&from("bob.near"), &acct("0")),
        Err(LedgerError::Unauthorized)
    );
}

#[test]
fn nft_transfer_call_rejected_restores_the_state() {
    let mut contract = with_two_tokens();
    contract.nft_approve(&from("alice.near"), &acct("0"), &acct("dave.near")).unwrap();
    let before = contract.nft_tokens(None, None);
    let usage = contract.storage_usage();
    let pending = contract
        .nft_transfer_call(
            &from("alice.near"),
            &acct("bob.near"),
            &acct("0"),
            None,
            None,
            acct("return-it-now"),
        )
        .unwrap();
    assert_eq!(contract.nft_token(&acct("0")).unwrap().owner_id, acct("bob.near"));
    let outcome = contract.nft_resolve_transfer(pending, HookVerdict::Rejected);
    assert!(!outcome.kept);
    assert_eq!(outcome.settlement, Settlement { charged: 0, refunded: ONE_NEAR, released: 0 });
    assert_eq!(contract.nft_tokens(None, None), before);
    assert_eq!(contract.storage_usage(), usage);
    assert!(contract.nft_is_approved(&acct("0"), &acct("dave.near"), Some(1)));
}

#[test]
fn nft_transfer_call_accepted_keeps_the_token() {
    let mut contract = with_two_tokens();
    let pending = contract
        .nft_transfer_call(
            &from("alice.near"),
            &acct("bob.near"),
            &acct("0"),
            None,
            Some(acct("memo")),
            acct("keep-it-now"),
        )
        .unwrap();
    let outcome = contract.nft_resolve_transfer(pending, HookVerdict::Accepted);
    assert!(outcome.kept);
    assert_eq!(contract.nft_token(&acct("0")).unwrap().owner_id, acct("bob.near"));
    let owned = contract.nft_tokens_for_owner(&acct("bob.near"), None, None);
    assert_eq!(owned.len(), 2);
    assert_eq!(owned[0].token_id, acct("0"));
    assert_eq!(owned[1].token_id, acct("1"));
}

#[test]
fn nft_burn_by_owner_only() {
    let mut contract = with_two_tokens();
    assert_eq!(
        contract.nft_burn(&from("bob.near"), &acct("0")),
        Err(LedgerError::Unauthorized)
    );
    assert_eq!(contract.nft_burn(&from("bob.near"), &acct("7")), Err(LedgerError::TokenNotFound));
    let receipt = contract.nft_burn(&from("alice.near"), &acct("0")).unwrap();
    assert_eq!(receipt.owner, acct("alice.near"));
    assert_eq!(receipt.bytes_freed, 36);
    assert_eq!(receipt.settlement.released, 36 * PROTOCOL_BYTE_COST);
    assert_eq!(receipt.settlement.refunded, ONE_NEAR);
    assert_eq!(contract.nft_total_supply(), 1);
    assert!(contract.nft_token(&acct("0")).is_none());
}

#[test]
fn nft_tokens_pages() {
    let contract = with_two_tokens();
    assert_eq!(contract.nft_tokens(None, None).len(), 2);
    assert_eq!(contract.nft_tokens(Some(1), Some(5))[0].token_id, acct("1"));
    assert!(contract.nft_tokens(Some(2), None).is_empty());
    assert_eq!(contract.nft_tokens_for_owner(&acct("bob.near"), None, None)[0].token_id, acct("1"));
}
