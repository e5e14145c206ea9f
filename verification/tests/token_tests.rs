use u_fundraisers::{Contract, ContractError, Token, TokenMetadata};

const YOCTO_PER_BYTE: u128 = 10_000_000_000_000_000_000;

fn empty_metadata() -> TokenMetadata {
    TokenMetadata {
        title: None,
        description: None,
        media: None,
        media_hash: None,
        copies: None,
        issued_at: None,
        expires_at: None,
        starts_at: None,
        updated_at: None,
        extra: None,
        reference: None,
        reference_hash: None,
    }
}

fn contract_with_token(owner: &str) -> Contract {
    let mut contract = Contract::new_default_meta("alice".to_string());
    contract
        .nft_mint("tok".to_string(), owner.to_string(), empty_metadata())
        .unwrap();
    contract
}

fn approval_cost(account: &str) -> u128 {
    (account.len() as u128 + 12) * YOCTO_PER_BYTE
}

#[test]
fn mint_creates_a_fresh_token() {
    let mut contract = Contract::new_default_meta("alice".to_string());
    let token = contract
        .nft_mint("tok".to_string(), "bob".to_string(), empty_metadata())
        .unwrap();
    assert_eq!(token.owner_id, "bob".to_string());
    assert_eq!(token.next_approval_id, 0);
    assert!(token.approved_accounts_ids.is_empty());
    let json = contract.nft_token("tok".to_string()).unwrap();
    assert_eq!(json.token_id, "tok".to_string());
    assert_eq!(json.owner_id, "bob".to_string());
    assert_eq!(json.metadata, empty_metadata());
}

#[test]
fn mint_of_a_taken_id_is_rejected() {
    let mut contract = contract_with_token("bob");
    let r = contract.nft_mint("tok".to_string(), "charlie".to_string(), empty_metadata());
    assert_eq!(r, Err(ContractError::AlreadyExistsError));
}

#[test]
fn nft_token_is_absent_for_unknown_id() {
    let contract = Contract::new_default_meta("alice".to_string());
    assert_eq!(contract.nft_token("tok".to_string()), None);
}

#[test]
fn first_approval_gets_id_zero_and_reapproval_invalidates_it() {
    let mut contract = contract_with_token("bob");
    let cost = approval_cost("danny");
    let out = contract
        .nft_approve(
            "tok".to_string(),
            "danny".to_string(),
            None,
            "bob".to_string(),
            cost,
        )
        .unwrap();
    assert_eq!(out.refund, 0);
    assert!(contract.nft_is_approved("tok".to_string(), "danny".to_string(), Some(0)));
    // a re-approval of the same delegate consumes a fresh id
    let out2 = contract
        .nft_approve(
            "tok".to_string(),
            "danny".to_string(),
            None,
            "bob".to_string(),
            1,
        )
        .unwrap();
    assert_eq!(out2.refund, 1);
    assert!(!contract.nft_is_approved("tok".to_string(), "danny".to_string(), Some(0)));
    assert!(contract.nft_is_approved("tok".to_string(), "danny".to_string(), Some(1)));
    assert!(contract.nft_is_approved("tok".to_string(), "danny".to_string(), None));
}

#[test]
fn approval_refunds_the_overpayment() {
    let mut contract = contract_with_token("bob");
    let cost = approval_cost("danny");
    let out = contract
        .nft_approve(
            "tok".to_string(),
            "danny".to_string(),
            None,
            "bob".to_string(),
            cost + 5,
        )
        .unwrap();
    assert_eq!(out.refund, 5);
}

#[test]
fn approval_with_message_carries_a_notification() {
    let mut contract = contract_with_token("bob");
    let cost = approval_cost("danny");
    let out = contract
        .nft_approve(
            "tok".to_string(),
            "danny".to_string(),
            Some("sale".to_string()),
            "bob".to_string(),
            cost,
        )
        .unwrap();
    let notice = out.notification.unwrap();
    assert_eq!(notice.recipient, "danny".to_string());
    assert_eq!(notice.token_id, "tok".to_string());
    assert_eq!(notice.owner_id, "bob".to_string());
    assert_eq!(notice.approval_id, 0);
    assert_eq!(notice.msg, "sale".to_string());
}

#[test]
fn approval_by_non_owner_is_rejected_and_changes_nothing() {
    let mut contract = contract_with_token("bob");
    let cost = approval_cost("danny");
    let r = contract.nft_approve(
        "tok".to_string(),
        "danny".to_string(),
        None,
        "charlie".to_string(),
        cost,
    );
    assert_eq!(r, Err(ContractError::AuthorizationError));
    assert!(!contract.nft_is_approved("tok".to_string(), "danny".to_string(), None));
    assert_eq!(contract.tokens_by_id[0].1.next_approval_id, 0);
}

#[test]
fn approval_below_storage_cost_is_rejected() {
    let mut contract = contract_with_token("bob");
    let cost = approval_cost("danny");
    let r = contract.nft_approve(
        "tok".to_string(),
        "danny".to_string(),
        None,
        "bob".to_string(),
        cost - 1,
    );
    assert_eq!(r, Err(ContractError::InsufficientPaymentError));
    assert!(!contract.nft_is_approved("tok".to_string(), "danny".to_string(), None));
}

#[test]
fn approval_without_any_deposit_is_rejected() {
    let mut contract = contract_with_token("bob");
    let r = contract.nft_approve(
        "tok".to_string(),
        "danny".to_string(),
        None,
        "bob".to_string(),
        0,
    );
    assert_eq!(r, Err(ContractError::InsufficientPaymentError));
}

#[test]
fn approval_of_missing_token_is_rejected() {
    let mut contract = Contract::new_default_meta("alice".to_string());
    let r = contract.nft_approve(
        "tok".to_string(),
        "danny".to_string(),
        None,
        "bob".to_string(),
        approval_cost("danny"),
    );
    assert_eq!(r, Err(ContractError::NotFoundError));
}

#[test]
fn revoke_removes_one_approval() {
    let mut contract = contract_with_token("bob");
    contract
        .nft_approve(
            "tok".to_string(),
            "danny".to_string(),
            None,
            "bob".to_string(),
            approval_cost("danny"),
        )
        .unwrap();
    contract
        .nft_revoke("tok".to_string(), "danny".to_string(), "bob".to_string(), 1)
        .unwrap();
    assert!(!contract.nft_is_approved("tok".to_string(), "danny".to_string(), None));
}

#[test]
fn revoke_needs_exactly_one_yocto() {
    let mut contract = contract_with_token("bob");
    let r = contract.nft_revoke("tok".to_string(), "danny".to_string(), "bob".to_string(), 2);
    assert_eq!(r, Err(ContractError::InsufficientPaymentError));
}

#[test]
fn revoke_by_non_owner_is_rejected() {
    let mut contract = contract_with_token("bob");
    let r = contract.nft_revoke(
        "tok".to_string(),
        "danny".to_string(),
        "charlie".to_string(),
        1,
    );
    assert_eq!(r, Err(ContractError::AuthorizationError));
}

#[test]
fn revoke_all_clears_every_approval() {
    let mut contract = contract_with_token("bob");
    contract
        .nft_approve(
            "tok".to_string(),
            "danny".to_string(),
            None,
            "bob".to_string(),
            approval_cost("danny"),
        )
        .unwrap();
    contract
        .nft_approve(
            "tok".to_string(),
            "charlie".to_string(),
            None,
            "bob".to_string(),
            approval_cost("charlie"),
        )
        .unwrap();
    contract
        .nft_revoke_all("tok".to_string(), "bob".to_string(), 1)
        .unwrap();
    assert!(!contract.nft_is_approved("tok".to_string(), "danny".to_string(), None));
    assert!(!contract.nft_is_approved("tok".to_string(), "charlie".to_string(), None));
}

#[test]
fn transfer_by_owner_moves_the_token_between_owner_sets() {
    let mut contract = contract_with_token("bob");
    contract
        .nft_approve(
            "tok".to_string(),
            "danny".to_string(),
            None,
            "bob".to_string(),
            approval_cost("danny"),
        )
        .unwrap();
    let event = contract
        .nft_transfer(
            "charlie".to_string(),
            "tok".to_string(),
            None,
            Some("gift".to_string()),
            "bob".to_string(),
            1,
        )
        .unwrap();
    assert_eq!(event.old_owner_id, "bob".to_string());
    assert_eq!(event.new_owner_id, "charlie".to_string());
    assert_eq!(event.token_id, "tok".to_string());
    assert_eq!(event.memo, Some("gift".to_string()));
    // ownership moved and every prior approval is gone
    let json = contract.nft_token("tok".to_string()).unwrap();
    assert_eq!(json.owner_id, "charlie".to_string());
    assert!(!contract.nft_is_approved("tok".to_string(), "danny".to_string(), None));
    // the owner index moved the id between both sets
    let bob_ids = contract
        .tokens_per_owner
        .iter()
        .find(|e| e.0 == "bob")
        .map(|e| e.1.clone())
        .unwrap();
    assert!(!bob_ids.contains(&"tok".to_string()));
    let charlie_ids = contract
        .tokens_per_owner
        .iter()
        .find(|e| e.0 == "charlie")
        .map(|e| e.1.clone())
        .unwrap();
    assert!(charlie_ids.contains(&"tok".to_string()));
}

#[test]
fn transfer_by_approved_delegate_needs_its_current_approval_id() {
    let mut contract = contract_with_token("bob");
    contract
        .nft_approve(
            "tok".to_string(),
            "danny".to_string(),
            None,
            "bob".to_string(),
            approval_cost("danny"),
        )
        .unwrap();
    // a stale or missing approval id does not authorize
    let r = contract.nft_transfer(
        "charlie".to_string(),
        "tok".to_string(),
        Some(7),
        None,
        "danny".to_string(),
        1,
    );
    assert_eq!(r, Err(ContractError::AuthorizationError));
    let r = contract.nft_transfer(
        "charlie".to_string(),
        "tok".to_string(),
        None,
        None,
        "danny".to_string(),
        1,
    );
    assert_eq!(r, Err(ContractError::AuthorizationError));
    // the current one does
    let event = contract
        .nft_transfer(
            "charlie".to_string(),
            "tok".to_string(),
            Some(0),
            None,
            "danny".to_string(),
            1,
        )
        .unwrap();
    assert_eq!(event.new_owner_id, "charlie".to_string());
}

#[test]
fn transfer_by_stranger_is_rejected_and_owner_index_unchanged() {
    let mut contract = contract_with_token("bob");
    let index_before = contract.tokens_per_owner.clone();
    let r = contract.nft_transfer(
        "charlie".to_string(),
        "tok".to_string(),
        None,
        None,
        "danny".to_string(),
        1,
    );
    assert_eq!(r, Err(ContractError::AuthorizationError));
    assert_eq!(contract.tokens_per_owner, index_before);
    assert_eq!(
        contract.nft_token("tok".to_string()).unwrap().owner_id,
        "bob".to_string()
    );
}

#[test]
fn transfer_to_the_current_owner_keeps_the_index_consistent() {
    let mut contract = contract_with_token("bob");
    contract
        .nft_transfer(
            "bob".to_string(),
            "tok".to_string(),
            None,
            None,
            "bob".to_string(),
            1,
        )
        .unwrap();
    assert_eq!(
        contract.nft_token("tok".to_string()).unwrap().owner_id,
        "bob".to_string()
    );
    let bob_ids = contract
        .tokens_per_owner
        .iter()
        .find(|e| e.0 == "bob")
        .map(|e| e.1.clone())
        .unwrap();
    assert!(bob_ids.contains(&"tok".to_string()));
}

#[test]
fn transfer_needs_exactly_one_yocto() {
    let mut contract = contract_with_token("bob");
    let r = contract.nft_transfer(
        "charlie".to_string(),
        "tok".to_string(),
        None,
        None,
        "bob".to_string(),
        0,
    );
    assert_eq!(r, Err(ContractError::InsufficientPaymentError));
}

#[test]
fn token_without_metadata_reads_as_absent() {
    // a token row without its metadata row would be a desynchronization
    // that no write produces; the read stays total and reports absence
    let mut contract = Contract::new_default_meta("alice".to_string());
    contract.tokens_by_id.push((
        "tok".to_string(),
        Token { owner_id: "bob".to_string(), approved_accounts_ids: Vec::new(), next_approval_id: 0 },
    ));
    assert_eq!(contract.nft_token("tok".to_string()), None);
}

#[test]
fn is_approved_is_false_for_missing_token() {
    let contract = Contract::new_default_meta("alice".to_string());
    assert!(!contract.nft_is_approved("tok".to_string(), "danny".to_string(), None));
}
