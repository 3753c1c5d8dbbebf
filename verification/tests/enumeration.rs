use wrapped_appchain_nft::enumeration::EnumerationView;
use wrapped_appchain_nft::ledger::{CallContext, Token, TokenLedger};

fn name(s: &str) -> String {
    s.to_string()
}

fn by(caller: &str) -> CallContext {
    CallContext::at_price(name(caller), 1_000_000, 1)
}

/// Five tokens "a" to "e"; alice has "a", "c", "e", bob has "b", "d".
fn five_tokens() -> TokenLedger {
    let mut ledger = TokenLedger::new(name("minter"), false);
    for (token, owner) in [("a", "alice"), ("b", "bob"), ("c", "alice"), ("d", "bob"), ("e", "alice")]
    {
        ledger.mint(&by("minter"), name(token), name(owner), None).unwrap();
    }
    ledger
}

fn ids(page: &[Token]) -> Vec<String> {
    page.iter().map(|t| t.token_id.clone()).collect()
}

fn names(list: &[&str]) -> Vec<String> {
    list.iter().map(|s| name(s)).collect()
}

#[test]
fn total_supply_counts_live_tokens() {
    let mut ledger = five_tokens();
    assert_eq!(EnumerationView::new(&ledger).total_supply(), 5);
    ledger.burn(&by("bob"), &name("b"), &name("bob")).unwrap();
    assert_eq!(EnumerationView::new(&ledger).total_supply(), 4);
    let empty = TokenLedger::new(name("minter"), false);
    assert_eq!(EnumerationView::new(&empty).total_supply(), 0);
}

#[test]
fn tokens_come_in_mint_order() {
    let ledger = five_tokens();
    let view = EnumerationView::new(&ledger);
    assert_eq!(ids(&view.tokens(None, None)), names(&["a", "b", "c", "d", "e"]));
    let all = view.tokens(None, None);
    assert_eq!(all[1].owner_id, name("bob"));
    assert_eq!(all[2].owner_id, name("alice"));
}

#[test]
fn tokens_pages() {
    let ledger = five_tokens();
    let view = EnumerationView::new(&ledger);
    assert_eq!(ids(&view.tokens(Some(0), Some(2))), names(&["a", "b"]));
    assert_eq!(ids(&view.tokens(Some(2), Some(2))), names(&["c", "d"]));
    assert_eq!(ids(&view.tokens(Some(4), Some(2))), names(&["e"]));
    assert_eq!(ids(&view.tokens(Some(3), None)), names(&["d", "e"]));
    assert_eq!(ids(&view.tokens(None, Some(3))), names(&["a", "b", "c"]));
}

#[test]
fn tokens_page_at_the_edges() {
    let ledger = five_tokens();
    let view = EnumerationView::new(&ledger);
    assert!(view.tokens(Some(5), None).is_empty());
    assert!(view.tokens(Some(6), Some(1)).is_empty());
    assert!(view.tokens(Some(u64::MAX), Some(u64::MAX)).is_empty());
    assert!(view.tokens(Some(1), Some(0)).is_empty());
    assert_eq!(ids(&view.tokens(Some(1), Some(u64::MAX))), names(&["b", "c", "d", "e"]));
    assert_eq!(ids(&view.tokens(Some(0), Some(5))), names(&["a", "b", "c", "d", "e"]));
}

#[test]
fn tokens_for_owner_come_in_mint_order() {
    let ledger = five_tokens();
    let view = EnumerationView::new(&ledger);
    assert_eq!(ids(&view.tokens_for_owner(&name("alice"), None, None)), names(&["a", "c", "e"]));
    assert_eq!(ids(&view.tokens_for_owner(&name("bob"), None, None)), names(&["b", "d"]));
    assert!(view.tokens_for_owner(&name("carol"), None, None).is_empty());
}

#[test]
fn tokens_for_owner_pages() {
    let ledger = five_tokens();
    let view = EnumerationView::new(&ledger);
    assert_eq!(ids(&view.tokens_for_owner(&name("alice"), Some(1), Some(1))), names(&["c"]));
    assert_eq!(ids(&view.tokens_for_owner(&name("alice"), Some(1), None)), names(&["c", "e"]));
    assert_eq!(ids(&view.tokens_for_owner(&name("alice"), None, Some(2))), names(&["a", "c"]));
    assert!(view.tokens_for_owner(&name("alice"), Some(3), None).is_empty());
    assert!(view.tokens_for_owner(&name("alice"), Some(9), Some(9)).is_empty());
    assert!(view.tokens_for_owner(&name("alice"), Some(0), Some(0)).is_empty());
}

#[test]
fn pages_are_stable_without_mutation() {
    let ledger = five_tokens();
    let view = EnumerationView::new(&ledger);
    assert_eq!(view.tokens(Some(1), Some(3)), view.tokens(Some(1), Some(3)));
    assert_eq!(
        view.tokens_for_owner(&name("bob"), None, None),
        view.tokens_for_owner(&name("bob"), None, None)
    );
}

#[test]
fn transfer_keeps_a_tokens_place() {
    let mut ledger = five_tokens();
    ledger.transfer(&by("alice"), &name("alice"), &name("bob"), &name("c"), None, None).unwrap();
    let view = EnumerationView::new(&ledger);
    assert_eq!(ids(&view.tokens(None, None)), names(&["a", "b", "c", "d", "e"]));
    assert_eq!(ids(&view.tokens_for_owner(&name("bob"), None, None)), names(&["b", "c", "d"]));
    assert_eq!(ids(&view.tokens_for_owner(&name("alice"), None, None)), names(&["a", "e"]));
}

#[test]
fn burn_closes_the_gap() {
    let mut ledger = five_tokens();
    ledger.burn(&by("alice"), &name("c"), &name("alice")).unwrap();
    let view = EnumerationView::new(&ledger);
    assert_eq!(ids(&view.tokens(None, None)), names(&["a", "b", "d", "e"]));
    assert_eq!(ids(&view.tokens(Some(2), Some(1))), names(&["d"]));
}

#[test]
fn listed_tokens_carry_data_and_approvals() {
    let mut ledger = five_tokens();
    ledger.approve(&by("bob"), &name("b"), &name("dave")).unwrap();
    let view = EnumerationView::new(&ledger);
    let page = view.tokens(Some(1), Some(1));
    assert_eq!(page.len(), 1);
    assert_eq!(Some(page[0].clone()), ledger.token(&name("b")));
    assert_eq!(page[0].approvals.len(), 1);
    assert_eq!(page[0].approvals[0].delegate, name("dave"));
    assert_eq!(page[0].approvals[0].approval_id, 1);
    assert_eq!(ledger.token_at(1), page[0]);
}
