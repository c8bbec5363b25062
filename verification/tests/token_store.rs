use candid::Principal;
use dip721_ledger::token_id::TokenIdentifier;
use dip721_ledger::tokens::TokensStorage;
use dip721_ledger::tx_history::TxHistory;
use dip721_ledger::types::TokenMetadata;
use dip721_rs::GenericValue;

const T0: u64 = 1_000;

fn caller() -> Principal {
    Principal::from_text("zrrb4-gyxmq-nx67d-wmbky-k6xyt-byhmw-tr5ct-vsxu4-nuv2g-6rr65-aae").unwrap()
}

fn alice() -> Principal {
    Principal::from_text("be2us-64aaa-aaaaa-qaabq-cai").unwrap()
}

fn bob() -> Principal {
    Principal::from_text("bs5l3-6b3zu-dpqyj-p2x4a-jyg4k-goneb-afof2-y5d62-skt67-3756q-dqe").unwrap()
}

fn id(v: u64) -> TokenIdentifier {
    TokenIdentifier::from_u64(v)
}

fn mock_token(v: u64) -> TokenMetadata {
    TokenMetadata {
        owner: Some(caller()),
        transferred_at: None,
        transferred_by: None,
        approved_at: None,
        approved_by: None,
        burned_at: None,
        burned_by: None,
        minted_at: 0,
        operator: None,
        is_burned: false,
        properties: vec![],
        token_identifier: id(v),
        minted_by: Principal::anonymous(),
    }
}

#[test]
fn test_should_mint_token() {
    let mut tokens = TokensStorage::new();
    let mut tx = TxHistory::new();
    let recipient = alice();
    let properties = vec![("key".to_string(), GenericValue::Int64Content(1))];

    let tx_id = tokens.mint(&mut tx, caller(), T0, recipient, id(1), properties).unwrap();
    assert_eq!(tx_id, 0u64);

    // get token
    let token = tokens.get_token(&id(1)).unwrap();
    assert_eq!(token.owner, Some(recipient));
}

#[test]
fn tokens_test_should_get_total_supply() {
    let mut tokens = TokensStorage::new();
    let mut tx = TxHistory::new();
    tokens.mint(&mut tx, caller(), T0, alice(), id(1), vec![]).unwrap();
    tokens.mint(&mut tx, caller(), T0, alice(), id(2), vec![]).unwrap();
    tokens.mint(&mut tx, caller(), T0, bob(), id(3), vec![]).unwrap();

    assert_eq!(tokens.total_supply(), 3);
}

#[test]
fn tokens_test_should_get_unique_holders() {
    let mut tokens = TokensStorage::new();
    let mut tx = TxHistory::new();
    tokens.mint(&mut tx, caller(), T0, alice(), id(1), vec![]).unwrap();
    tokens.mint(&mut tx, caller(), T0, alice(), id(2), vec![]).unwrap();
    tokens.mint(&mut tx, caller(), T0, bob(), id(3), vec![]).unwrap();

    assert_eq!(tokens.total_unique_holders(), 2);
}

#[test]
fn test_should_get_tokens_by_owner() {
    let mut tokens = TokensStorage::new();
    let mut tx = TxHistory::new();
    tokens.mint(&mut tx, caller(), T0, alice(), id(1), vec![]).unwrap();
    tokens.mint(&mut tx, caller(), T0, bob(), id(2), vec![]).unwrap();
    tokens.mint(&mut tx, caller(), T0, alice(), id(3), vec![]).unwrap();

    assert_eq!(tokens.tokens_by_owner(alice()), vec![id(1), id(3)]);
}

#[test]
fn test_should_get_tokens_by_operator() {
    let mut tokens = TokensStorage::new();
    let mut tx = TxHistory::new();
    tokens.mint(&mut tx, caller(), T0, alice(), id(1), vec![]).unwrap();
    tokens.approve(&mut tx, alice(), T0, bob(), &id(1)).unwrap();
    tokens.mint(&mut tx, caller(), T0, bob(), id(2), vec![]).unwrap();
    tokens.mint(&mut tx, caller(), T0, alice(), id(3), vec![]).unwrap();

    assert_eq!(tokens.tokens_by_operator(bob()), vec![id(1)]);
}

#[test]
fn tokens_test_should_set_token_property() {
    let mut tokens = TokensStorage::new();
    let mut tx = TxHistory::new();
    tokens.mint(&mut tx, caller(), T0, alice(), id(1), vec![]).unwrap();
    assert!(tokens
        .set_token_property(&id(1), "key".to_string(), GenericValue::FloatContent(2.2))
        .is_ok());
    let token = tokens.get_token(&id(1)).unwrap();
    assert_eq!(
        token.properties,
        vec![("key".to_string(), GenericValue::FloatContent(2.2))]
    );
}

#[test]
fn test_should_burn_token() {
    let mut tokens = TokensStorage::new();
    let mut tx = TxHistory::new();
    tokens.mint(&mut tx, caller(), T0, alice(), id(1), vec![]).unwrap();
    assert!(tokens.burn(&mut tx, caller(), T0, &id(1)).is_ok(), "Should burn token");
    assert!(tokens.burn(&mut tx, caller(), T0, &id(1)).is_err(), "Should already be burned");
}

#[test]
fn test_should_approve_token() {
    let mut tokens = TokensStorage::new();
    let mut tx = TxHistory::new();
    tokens.mint(&mut tx, caller(), T0, alice(), id(1), vec![]).unwrap();
    assert!(
        tokens.approve(&mut tx, alice(), T0, bob(), &id(1)).is_ok(),
        "Should approve token"
    );
    let token = tokens.get_token(&id(1)).unwrap();
    assert_eq!(token.operator, Some(bob()));
    assert!(token.approved_at.is_some());
    assert!(token.approved_by.is_some());

    // disapprove, but with different operator
    assert!(
        tokens
            .revoke_approval(&mut tx, alice(), T0, Principal::management_canister(), &id(1))
            .is_ok(),
        "Should revoke approval"
    );
    let token = tokens.get_token(&id(1)).unwrap();
    assert_eq!(token.operator, Some(bob()));

    // revoke for bob
    assert!(
        tokens.revoke_approval(&mut tx, alice(), T0, bob(), &id(1)).is_ok(),
        "Should revoke approval"
    );
    let token = tokens.get_token(&id(1)).unwrap();
    assert_eq!(token.operator, None);
    assert!(token.approved_at.is_none());
    assert!(token.approved_by.is_none());
}

#[test]
fn test_should_transfer_token() {
    let mut tokens = TokensStorage::new();
    let mut tx = TxHistory::new();
    tokens.mint(&mut tx, caller(), T0, alice(), id(1), vec![]).unwrap();
    assert!(
        tokens.transfer(&mut tx, alice(), T0, &id(1), bob()).is_ok(),
        "Should transfer token"
    );
    let token = tokens.get_token(&id(1)).unwrap();
    assert_eq!(token.owner, Some(bob()));
    assert!(token.transferred_at.is_some());
    assert!(token.transferred_by.is_some());
    assert!(tokens.burn(&mut tx, bob(), T0, &id(1)).is_ok(), "Should already be burned");
    assert!(
        tokens.transfer(&mut tx, bob(), T0, &id(1), alice()).is_err(),
        "Should not allow transfer of burned token"
    );
}

#[test]
fn test_should_insert_transactions() {
    let mut tx = TxHistory::new();
    let token = mock_token(1);
    tx.register_token_mint(caller(), T0, &token);
    let event = tx.get_transaction_by_id(0).unwrap();
    assert_eq!(event.operation, "mint");
    assert_eq!(event.caller, caller());
    assert_eq!(tx.count(), 1);
    assert!(tx.get_transaction_by_id(1).is_none());
}

#[test]
fn token_ids_order_numerically() {
    let mut tokens = TokensStorage::new();
    let mut tx = TxHistory::new();
    tokens.mint(&mut tx, caller(), T0, alice(), id(3), vec![]).unwrap();
    tokens.mint(&mut tx, caller(), T0, alice(), TokenIdentifier::from_u64(u64::MAX), vec![]).unwrap();
    tokens.mint(&mut tx, caller(), T0, alice(), id(1), vec![]).unwrap();
    tokens.mint(&mut tx, caller(), T0, alice(), id(0), vec![]).unwrap();

    assert_eq!(
        tokens.tokens_by_owner(alice()),
        vec![id(0), id(1), id(3), TokenIdentifier::from_u64(u64::MAX)]
    );
    assert!(id(1).lt(&id(3)));
    assert!(!id(3).lt(&id(1)));
    assert!(id(0).lt(&TokenIdentifier::from_u64(u64::MAX)));
    assert!(id(7).eq_value(&id(7)));
    assert!(!id(7).eq_value(&id(8)));
}

#[test]
fn token_ids_beyond_one_limb() {
    // 2^64 is one more than the largest single-limb id
    let big = TokenIdentifier::from_limbs(vec![1, 0]);
    let max_word = TokenIdentifier::from_u64(u64::MAX);
    assert!(max_word.lt(&big));
    assert!(!big.lt(&max_word));
    assert!(!big.eq_value(&max_word));

    // leading zero limbs denote the same integer
    let padded = TokenIdentifier::from_limbs(vec![0, 0, 7]);
    assert!(padded.eq_value(&TokenIdentifier::from_u64(7)));
    assert_eq!(padded, TokenIdentifier::from_u64(7));

    let mut tokens = TokensStorage::new();
    let mut tx = TxHistory::new();
    tokens.mint(&mut tx, caller(), T0, alice(), TokenIdentifier::from_limbs(vec![1, 0]), vec![]).unwrap();
    tokens.mint(&mut tx, caller(), T0, alice(), id(u64::MAX), vec![]).unwrap();
    assert_eq!(
        tokens.tokens_by_owner(alice()),
        vec![id(u64::MAX), TokenIdentifier::from_limbs(vec![1, 0])]
    );
}

#[test]
fn property_update_first_match_else_append() {
    let mut tokens = TokensStorage::new();
    let mut tx = TxHistory::new();
    let properties = vec![
        ("a".to_string(), GenericValue::Nat8Content(1)),
        ("b".to_string(), GenericValue::Nat8Content(2)),
    ];
    tokens.mint(&mut tx, caller(), T0, alice(), id(1), properties).unwrap();

    tokens.set_token_property(&id(1), "a".to_string(), GenericValue::Nat8Content(9)).unwrap();
    tokens.set_token_property(&id(1), "c".to_string(), GenericValue::Nat8Content(3)).unwrap();

    let token = tokens.get_token(&id(1)).unwrap();
    assert_eq!(
        token.properties,
        vec![
            ("a".to_string(), GenericValue::Nat8Content(9)),
            ("b".to_string(), GenericValue::Nat8Content(2)),
            ("c".to_string(), GenericValue::Nat8Content(3)),
        ]
    );
}
