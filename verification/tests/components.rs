use wrapped_appchain_nft::approval::{approvals_bytes, Approval, ApprovalRegistry, ApprovalSet};
use wrapped_appchain_nft::error::LedgerError;
use wrapped_appchain_nft::ownership::OwnershipIndex;
use wrapped_appchain_nft::table::Table;

fn key(s: &str) -> String {
    s.to_string()
}

fn grant(delegate: &str, approval_id: u64) -> Approval {
    Approval { delegate: key(delegate), approval_id }
}

#[test]
fn table_keeps_insertion_order() {
    let mut table: Table<u64> = Table::new();
    assert_eq!(table.len(), 0);
    table.push(key("x"), 1);
    table.push(key("y"), 2);
    table.set(key("z"), 3);
    assert_eq!(table.len(), 3);
    assert_eq!(table.find(&key("y")), Some(1));
    assert_eq!(table.find(&key("w")), None);
    assert_eq!(table.key_at(2), &key("z"));
    assert_eq!(*table.value_at(0), 1);
}

#[test]
fn table_set_keeps_the_place_of_a_key() {
    let mut table: Table<u64> = Table::new();
    table.set(key("x"), 1);
    table.set(key("y"), 2);
    table.set(key("x"), 7);
    assert_eq!(table.len(), 2);
    assert_eq!(table.find(&key("x")), Some(0));
    assert_eq!(*table.value_at(0), 7);
    assert_eq!(table.replace(1, 9), 2);
    assert_eq!(*table.value_at(1), 9);
    *table.value_mut(1) = 11;
    assert_eq!(*table.value_at(1), 11);
}

#[test]
fn table_take_and_remove_close_the_gap() {
    let mut table: Table<u64> = Table::new();
    table.set(key("x"), 1);
    table.set(key("y"), 2);
    table.set(key("z"), 3);
    assert_eq!(table.take(&key("y")), Some(2));
    assert_eq!(table.take(&key("y")), None);
    assert_eq!(table.find(&key("z")), Some(1));
    let row = table.remove(0);
    assert_eq!((row.key, row.value), (key("x"), 1));
    assert_eq!(table.len(), 1);
    assert_eq!(table.key_at(0), &key("z"));
}

#[test]
fn index_owner_of_and_set_owner() {
    let mut index = OwnershipIndex::new();
    assert_eq!(index.len(), 0);
    assert_eq!(index.owner_of(&key("t")), None);
    index.set_owner(key("t"), key("alice"));
    index.set_owner(key("u"), key("bob"));
    assert_eq!(index.owner_of(&key("t")), Some(key("alice")));
    index.set_owner(key("t"), key("bob"));
    assert_eq!(index.owner_of(&key("t")), Some(key("bob")));
    assert_eq!(index.len(), 2);
    assert_eq!(index.position(&key("u")), Some(1));
    assert_eq!(index.position(&key("v")), None);
    assert_eq!(index.token_at(0), &key("t"));
    assert_eq!(index.owner_at(1), &key("bob"));
}

#[test]
fn index_tokens_of_follows_the_owners() {
    let mut index = OwnershipIndex::new();
    index.set_owner(key("t"), key("alice"));
    index.set_owner(key("u"), key("bob"));
    index.set_owner(key("v"), key("alice"));
    assert_eq!(index.tokens_of(&key("alice")), vec![key("t"), key("v")]);
    assert_eq!(index.tokens_of(&key("bob")), vec![key("u")]);
    assert!(index.tokens_of(&key("carol")).is_empty());
    index.set_owner(key("t"), key("bob"));
    assert_eq!(index.tokens_of(&key("alice")), vec![key("v")]);
    assert_eq!(index.tokens_of(&key("bob")), vec![key("t"), key("u")]);
}

#[test]
fn index_remove_forgets_the_token() {
    let mut index = OwnershipIndex::new();
    index.set_owner(key("t"), key("alice"));
    index.set_owner(key("u"), key("alice"));
    assert_eq!(index.remove(&key("t")), Some(key("alice")));
    assert_eq!(index.remove(&key("t")), None);
    assert_eq!(index.owner_of(&key("t")), None);
    assert_eq!(index.tokens_of(&key("alice")), vec![key("u")]);
    assert_eq!(index.len(), 1);
}

#[test]
fn set_counts_up_from_one() {
    let mut set = ApprovalSet::new();
    assert_eq!(set.next_id(), 1);
    assert_eq!(set.len(), 0);
    assert_eq!(set.approve(key("dave")), Ok(1));
    assert_eq!(set.approve(key("erin")), Ok(2));
    assert_eq!(set.approve(key("dave")), Ok(3));
    assert_eq!(set.next_id(), 4);
    assert_eq!(set.len(), 2);
    assert_eq!(set.id_of(&key("dave")), Some(3));
    assert_eq!(set.id_of(&key("erin")), Some(2));
    assert_eq!(set.id_of(&key("zed")), None);
    assert_eq!(set.list(), vec![grant("dave", 3), grant("erin", 2)]);
    assert_eq!(set.grants_bytes(), 32);
}

#[test]
fn set_revoke_and_clear_keep_the_counter() {
    let mut set = ApprovalSet::new();
    set.approve(key("dave")).unwrap();
    set.approve(key("erin")).unwrap();
    assert_eq!(set.revoke(&key("dave")), Ok(1));
    assert_eq!(set.revoke(&key("dave")), Err(LedgerError::ApprovalNotFound));
    assert_eq!(set.next_id(), 3);
    assert_eq!(set.clear(), vec![grant("erin", 2)]);
    assert_eq!(set.len(), 0);
    assert_eq!(set.next_id(), 3);
    assert_eq!(set.approve(key("dave")), Ok(3));
}

#[test]
fn set_admits_only_what_was_handed_out() {
    let mut set = ApprovalSet::new();
    set.approve(key("dave")).unwrap();
    set.approve(key("erin")).unwrap();
    assert!(set.admits(&vec![]));
    assert!(set.admits(&vec![grant("x", 1), grant("y", 2)]));
    assert!(set.admits(&vec![grant("x", 2), grant("y", 2)]));
    assert!(!set.admits(&vec![grant("x", 3)]));
    assert!(!set.admits(&vec![grant("x", 1), grant("x", 2)]));
    assert!(!set.admits(&vec![grant("x", 1), grant("y", 2), grant("x", 1)]));
    set.restore(&vec![grant("x", 2), grant("y", 1)]);
    assert_eq!(set.list(), vec![grant("x", 2), grant("y", 1)]);
    assert_eq!(set.next_id(), 3);
}

#[test]
fn list_sizes() {
    assert_eq!(approvals_bytes(&vec![]), Some(0));
    assert_eq!(approvals_bytes(&vec![grant("dave", 1)]), Some(16));
    assert_eq!(approvals_bytes(&vec![grant("dave", 1), grant("", 9)]), Some(28));
}

#[test]
fn registry_keeps_tokens_apart() {
    let mut registry = ApprovalRegistry::new();
    assert!(!registry.has_row(&key("t")));
    assert_eq!(registry.next_id(&key("t")), 1);
    assert_eq!(registry.approve(&key("t"), key("dave")), Ok(1));
    assert_eq!(registry.approve(&key("u"), key("dave")), Ok(1));
    assert_eq!(registry.approve(&key("t"), key("erin")), Ok(2));
    assert!(registry.has_row(&key("t")));
    assert_eq!(registry.next_id(&key("t")), 3);
    assert_eq!(registry.next_id(&key("u")), 2);
    assert_eq!(registry.id_of(&key("t"), &key("erin")), Some(2));
    assert_eq!(registry.id_of(&key("u"), &key("erin")), None);
    assert!(registry.is_approved(&key("t"), &key("dave"), Some(1)));
    assert!(registry.is_approved(&key("t"), &key("dave"), None));
    assert!(!registry.is_approved(&key("t"), &key("dave"), Some(2)));
    assert!(!registry.is_approved(&key("v"), &key("dave"), None));
    assert_eq!(registry.approvals(&key("t")), vec![grant("dave", 1), grant("erin", 2)]);
    assert!(registry.approvals(&key("v")).is_empty());
    assert_eq!(registry.grants_bytes(&key("t")), 32);
    assert_eq!(registry.grants_bytes(&key("v")), 0);
    assert_eq!(registry.row_bytes(&key("t")), 4 + 1 + 8 + 32);
    assert_eq!(registry.row_bytes(&key("v")), 0);
}

#[test]
fn registry_revoke_and_revoke_all() {
    let mut registry = ApprovalRegistry::new();
    registry.approve(&key("t"), key("dave")).unwrap();
    registry.approve(&key("t"), key("erin")).unwrap();
    assert_eq!(registry.revoke(&key("t"), &key("zed")), Err(LedgerError::ApprovalNotFound));
    assert_eq!(registry.revoke(&key("u"), &key("dave")), Err(LedgerError::ApprovalNotFound));
    assert!(!registry.has_row(&key("u")));
    assert_eq!(registry.revoke(&key("t"), &key("dave")), Ok(1));
    assert_eq!(registry.revoke_all(&key("t")), vec![grant("erin", 2)]);
    assert!(registry.revoke_all(&key("u")).is_empty());
    assert!(registry.has_row(&key("t")));
    assert_eq!(registry.approve(&key("t"), key("dave")), Ok(3));
}

#[test]
fn registry_restore_and_forget() {
    let mut registry = ApprovalRegistry::new();
    registry.approve(&key("t"), key("dave")).unwrap();
    registry.approve(&key("t"), key("erin")).unwrap();
    let taken = registry.revoke_all(&key("t"));
    assert!(registry.admits(&key("t"), &taken));
    assert!(!registry.admits(&key("u"), &taken));
    assert!(registry.admits(&key("u"), &vec![]));
    registry.restore(&key("t"), &taken);
    assert_eq!(registry.approvals(&key("t")), vec![grant("dave", 1), grant("erin", 2)]);
    assert_eq!(registry.next_id(&key("t")), 3);
    registry.forget(&key("t"));
    assert!(!registry.has_row(&key("t")));
    assert_eq!(registry.next_id(&key("t")), 1);
    assert!(registry.approvals(&key("t")).is_empty());
}
