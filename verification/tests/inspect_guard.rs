use candid::Principal;
use dip721_ledger::configuration::Configuration;
use dip721_ledger::inspect::Inspect;
use dip721_ledger::token_id::TokenIdentifier;
use dip721_ledger::tokens::TokensStorage;
use dip721_ledger::tx_history::TxHistory;

const T0: u64 = 1_000;

fn caller() -> Principal {
    Principal::from_text("zrrb4-gyxmq-nx67d-wmbky-k6xyt-byhmw-tr5ct-vsxu4-nuv2g-6rr65-aae").unwrap()
}

fn id(v: u64) -> TokenIdentifier {
    TokenIdentifier::from_u64(v)
}

#[test]
fn inspect_test_should_inspect_is_custodian() {
    let mut config = Configuration::new(T0);

    let anonymous = Principal::anonymous();
    assert_eq!(Inspect::inspect_is_custodian(&config, anonymous), false);

    let management = Principal::from_text("aaaaa-aa").unwrap();
    assert_eq!(Inspect::inspect_is_custodian(&config, management), false);

    config.set_custodians(vec![management]);
    assert_eq!(Inspect::inspect_is_custodian(&config, management), true);
}

#[test]
fn inspect_message_gates_methods() {
    let caller = caller();
    let mut config = Configuration::new(T0);
    config.set_custodians(vec![caller]);
    let mut tokens = TokensStorage::new();
    let mut tx = TxHistory::new();
    tokens.mint(&mut tx, caller, T0, caller, id(1), vec![]).unwrap();

    let anonymous = Principal::anonymous();

    // custodian-gated methods
    assert!(Inspect::inspect_message(&config, &tokens, &"dip721_mint".to_string(), caller, None));
    assert!(!Inspect::inspect_message(&config, &tokens, &"dip721_mint".to_string(), anonymous, None));
    assert!(!Inspect::inspect_message(&config, &tokens, &"set_token_property".to_string(), anonymous, None));

    // owner-or-operator-gated methods
    assert!(Inspect::inspect_message(&config, &tokens, &"dip721_burn".to_string(), caller, Some(&id(1))));
    assert!(!Inspect::inspect_message(&config, &tokens, &"dip721_burn".to_string(), anonymous, Some(&id(1))));
    assert!(!Inspect::inspect_message(&config, &tokens, &"dip721_transfer_from".to_string(), caller, None));

    // owner-gated approval
    assert!(Inspect::inspect_message(&config, &tokens, &"dip721_approve".to_string(), caller, Some(&id(1))));
    assert!(!Inspect::inspect_message(&config, &tokens, &"dip721_approve".to_string(), anonymous, Some(&id(1))));
    assert!(!Inspect::inspect_message(&config, &tokens, &"dip721_approve".to_string(), caller, Some(&id(9))));

    // everything else passes
    assert!(Inspect::inspect_message(&config, &tokens, &"dip721_owner_of".to_string(), anonymous, None));
}

#[test]
fn test_should_is_owner_or_operator() {
    let caller = caller();
    let mut tokens = TokensStorage::new();
    let mut tx = TxHistory::new();

    // owner, no operator
    tokens.mint(&mut tx, caller, T0, caller, id(1), vec![]).unwrap();
    assert!(Inspect::inspect_is_owner_or_operator(&tokens, caller, &id(1)).is_ok());

    // with operator, then transferred away: the transfer clears the operator
    tokens.mint(&mut tx, caller, T0, caller, id(2), vec![]).unwrap();
    tokens.approve(&mut tx, caller, T0, caller, &id(2)).unwrap();
    assert!(tokens.transfer(&mut tx, caller, T0, &id(2), Principal::management_canister()).is_ok());
    assert!(Inspect::inspect_is_owner_or_operator(&tokens, caller, &id(2)).is_err());

    // no operator, no owner
    tokens.mint(&mut tx, caller, T0, caller, id(3), vec![]).unwrap();
    tokens.approve(&mut tx, caller, T0, Principal::management_canister(), &id(3)).unwrap();
    assert!(tokens.transfer(&mut tx, caller, T0, &id(3), Principal::management_canister()).is_ok());
    assert!(Inspect::inspect_is_owner_or_operator(&tokens, caller, &id(3)).is_err());
}

#[test]
fn test_should_inspect_transfer_from() {
    let caller = caller();
    let mut tokens = TokensStorage::new();
    let mut tx = TxHistory::new();

    tokens.mint(&mut tx, caller, T0, caller, id(1), vec![]).unwrap();
    assert!(Inspect::inspect_transfer_from(&tokens, caller, &id(1)).is_ok());

    // with operator, then transferred away
    tokens.mint(&mut tx, caller, T0, caller, id(2), vec![]).unwrap();
    tokens.approve(&mut tx, caller, T0, caller, &id(2)).unwrap();
    assert!(tokens.transfer(&mut tx, caller, T0, &id(2), Principal::management_canister()).is_ok());
    assert!(Inspect::inspect_transfer_from(&tokens, caller, &id(2)).is_err());

    // no operator, no owner
    tokens.mint(&mut tx, caller, T0, caller, id(3), vec![]).unwrap();
    tokens.approve(&mut tx, caller, T0, Principal::management_canister(), &id(3)).unwrap();
    assert!(tokens.transfer(&mut tx, caller, T0, &id(3), Principal::management_canister()).is_ok());
    assert!(Inspect::inspect_transfer_from(&tokens, caller, &id(3)).is_err());

    // burned tokens are rejected
    tokens.mint(&mut tx, caller, T0, caller, id(4), vec![]).unwrap();
    assert!(tokens.burn(&mut tx, caller, T0, &id(4)).is_ok());
    assert!(Inspect::inspect_transfer_from(&tokens, caller, &id(4)).is_err());
}
