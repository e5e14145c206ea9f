use u_fundraisers::{Contract, ContractError, Fundraiser, FundraiserStatus, JsonFundraiser};
use u_fundraisers::{Token, TokenMetadata};

fn empty_metadata() -> TokenMetadata {
    TokenMetadata {
        title: None,
        description: None,
        media: None,
        media_hash: None,
        copies: None,
        issued_at: None,
        expires_at: None,
        starts_at: None,
        updated_at: None,
        extra: None,
        reference: None,
        reference_hash: None,
    }
}

#[test]
fn get_fundraiser_by_id_not_found_test() {
    let contract = Contract::new_default_meta("bob".to_string());
    assert_eq!(contract.get_fundraiser_by_id(1), None);
}

#[test]
fn get_fundraiser_by_id_success_test() {
    let mut contract = Contract::new_default_meta("bob".to_string());
    let owner_id = "charlie".to_string();
    let fundraiser = Fundraiser {
        owner_id: owner_id.clone(),
        title: "".to_string(),
        description: "".to_string(),
        status: FundraiserStatus::ACTIVE,
    };
    let fundraiser_id: u32 = contract.fundraiser_counter + 1;
    contract.fundraiser_per_owner.push((owner_id.clone(), vec![fundraiser_id]));
    contract.fundraisers_by_id.push((fundraiser_id, fundraiser.clone()));
    let token = Token {
        owner_id,
        approved_accounts_ids: Vec::new(),
        next_approval_id: 0,
    };
    let token_metadata = empty_metadata();
    let token_id: String = fundraiser_id.to_string();
    contract.tokens_by_id.push((token_id.clone(), token.clone()));
    contract.token_metadata_by_id.push((token_id.clone(), token_metadata));

    let json_fundraiser = JsonFundraiser {
        fundraiser,
        fundraiser_id,
        token_id,
        token,
        token_metadata: empty_metadata(),
    };
    assert_eq!(contract.get_fundraiser_by_id(1), Some(json_fundraiser));
}

#[test]
fn get_all_fundraisers_empty_test() {
    let contract = Contract::new_default_meta("bob".to_string());
    let empty: Vec<JsonFundraiser> = Vec::new();
    assert_eq!(contract.get_all_fundraisers(Some(1)), Ok(empty));
}

#[test]
fn get_all_fundraisers_test() {
    let mut contract = Contract::new_default_meta("alice".to_string());
    contract
        .add_new_fundraiser(
            "test".to_string(),
            "".to_string(),
            FundraiserStatus::ACTIVE,
            empty_metadata(),
            "alice".to_string(),
        )
        .unwrap();
    assert_eq!(contract.get_all_fundraisers(Some(1)).unwrap().len(), 1);
    assert_eq!(contract.get_all_fundraisers(None).unwrap().len(), 1);
}

#[test]
fn add_new_fundraiser_success_increments_counter() {
    let mut contract = Contract::new_default_meta("alice".to_string());
    let before = contract.fundraiser_counter;
    let (id, token_id) = contract
        .add_new_fundraiser(
            "help the zoo".to_string(),
            "".to_string(),
            FundraiserStatus::ACTIVE,
            empty_metadata(),
            "alice".to_string(),
        )
        .unwrap();
    assert_eq!(contract.fundraiser_counter, before + 1);
    assert_eq!(id, 1);
    assert_eq!(token_id, "1".to_string());
}

#[test]
fn add_new_fundraiser_empty_title_is_rejected() {
    let mut contract = Contract::new_default_meta("alice".to_string());
    let r = contract.add_new_fundraiser(
        "".to_string(),
        "".to_string(),
        FundraiserStatus::ACTIVE,
        empty_metadata(),
        "alice".to_string(),
    );
    assert_eq!(r, Err(ContractError::ValidationError));
    assert_eq!(contract.fundraiser_counter, 0);
    assert_eq!(contract.get_fundraiser_by_id(1), None);
}

#[test]
fn add_new_fundraiser_long_description_is_rejected() {
    let mut contract = Contract::new_default_meta("alice".to_string());
    let description: String = std::iter::repeat("X").take(2001).collect();
    let r = contract.add_new_fundraiser(
        "test".to_string(),
        description,
        FundraiserStatus::ACTIVE,
        empty_metadata(),
        "alice".to_string(),
    );
    assert_eq!(r, Err(ContractError::ValidationError));
    assert_eq!(contract.fundraiser_counter, 0);
}

#[test]
fn add_new_fundraiser_long_title_is_rejected() {
    let mut contract = Contract::new_default_meta("alice".to_string());
    let title: String = std::iter::repeat("X").take(1001).collect();
    let r = contract.add_new_fundraiser(
        title,
        "".to_string(),
        FundraiserStatus::ACTIVE,
        empty_metadata(),
        "alice".to_string(),
    );
    assert_eq!(r, Err(ContractError::ValidationError));
}

#[test]
fn add_new_fundraiser_boundary_lengths_are_accepted() {
    let mut contract = Contract::new_default_meta("alice".to_string());
    let title: String = std::iter::repeat("X").take(1000).collect();
    let description: String = std::iter::repeat("Y").take(2000).collect();
    let r = contract.add_new_fundraiser(
        title,
        description,
        FundraiserStatus::DRAFT,
        empty_metadata(),
        "alice".to_string(),
    );
    assert!(r.is_ok());
    assert_eq!(contract.fundraiser_counter, 1);
}

#[test]
fn created_fundraiser_view_joins_token_and_id() {
    let mut contract = Contract::new_default_meta("alice".to_string());
    for _ in 0..12 {
        contract
            .add_new_fundraiser(
                "campaign".to_string(),
                "about it".to_string(),
                FundraiserStatus::ACTIVE,
                empty_metadata(),
                "bob".to_string(),
            )
            .unwrap();
    }
    let view = contract.get_fundraiser_by_id(12).unwrap();
    assert_eq!(view.fundraiser_id, 12);
    assert_eq!(view.token_id, "12".to_string());
    assert_eq!(view.fundraiser.owner_id, "bob".to_string());
    assert_eq!(view.token.owner_id, "bob".to_string());
}

#[test]
fn list_fundraisers_pages_in_creation_order() {
    let mut contract = Contract::new_default_meta("alice".to_string());
    for i in 0..30 {
        contract
            .add_new_fundraiser(
                format!("campaign {}", i),
                "".to_string(),
                FundraiserStatus::ACTIVE,
                empty_metadata(),
                "alice".to_string(),
            )
            .unwrap();
    }
    let first = contract.get_all_fundraisers(None).unwrap();
    assert_eq!(first.len(), 25);
    for (k, view) in first.iter().enumerate() {
        assert_eq!(view.fundraiser_id, (k + 1) as u32);
    }
    let first_again = contract.get_all_fundraisers(Some(1)).unwrap();
    assert_eq!(first, first_again);
    let second = contract.get_all_fundraisers(Some(2)).unwrap();
    assert_eq!(second.len(), 5);
    assert_eq!(second[0].fundraiser_id, 26);
    assert_eq!(second[4].fundraiser_id, 30);
    assert_eq!(
        contract.get_all_fundraisers(Some(0)),
        Err(ContractError::ValidationError)
    );
}

#[test]
fn donations_keep_order_and_multiplicity() {
    let mut contract = Contract::new_default_meta("alice".to_string());
    contract
        .add_new_fundraiser(
            "water".to_string(),
            "".to_string(),
            FundraiserStatus::ACTIVE,
            empty_metadata(),
            "alice".to_string(),
        )
        .unwrap();
    contract.donate_to_fundraiser(1, "bob".to_string(), 500).unwrap();
    contract.donate_to_fundraiser(1, "bob".to_string(), 500).unwrap();
    contract.donate_to_fundraiser(1, "charlie".to_string(), 7).unwrap();
    contract.donate_to_fundraiser(1, "bob".to_string(), 123).unwrap();
    assert_eq!(contract.get_donations(1, "bob".to_string()), vec![500u128, 500, 123]);
    assert_eq!(contract.get_donations(1, "charlie".to_string()), vec![7u128]);
    assert_eq!(contract.get_donations(1, "danny".to_string()), Vec::<u128>::new());
    assert_eq!(contract.get_donations(9, "bob".to_string()), Vec::<u128>::new());
}

#[test]
fn fundraiser_without_its_token_reads_as_absent() {
    // an entity/index desynchronization cannot arise through the library's
    // own writes; were a fundraiser row ever left without its paired token,
    // the read stays total and reports the row as absent, never an error
    let mut contract = Contract::new_default_meta("alice".to_string());
    contract.fundraiser_counter = 1;
    contract.fundraisers_by_id.push((
        1,
        Fundraiser {
            owner_id: "bob".to_string(),
            title: "orphaned".to_string(),
            description: "".to_string(),
            status: FundraiserStatus::ACTIVE,
        },
    ));
    assert_eq!(contract.get_fundraiser_by_id(1), None);
    assert_eq!(contract.get_all_fundraisers(None), Ok(Vec::new()));
}

#[test]
fn donation_to_missing_fundraiser_is_rejected() {
    let mut contract = Contract::new_default_meta("alice".to_string());
    let r = contract.donate_to_fundraiser(1, "bob".to_string(), 10);
    assert_eq!(r, Err(ContractError::NotFoundError));
}
