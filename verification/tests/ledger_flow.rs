use candid::Principal;
use dip721_ledger::app::App;
use dip721_ledger::token_id::TokenIdentifier;
use dip721_ledger::types::{CanisterInitData, NftError, SupportedInterface};

const T0: u64 = 1_000;

fn admin() -> Principal {
    Principal::from_text("zrrb4-gyxmq-nx67d-wmbky-k6xyt-byhmw-tr5ct-vsxu4-nuv2g-6rr65-aae").unwrap()
}

fn alice() -> Principal {
    Principal::from_text("be2us-64aaa-aaaaa-qaabq-cai").unwrap()
}

fn bob() -> Principal {
    Principal::from_text("bs5l3-6b3zu-dpqyj-p2x4a-jyg4k-goneb-afof2-y5d62-skt67-3756q-dqe").unwrap()
}

fn id(v: u64) -> TokenIdentifier {
    TokenIdentifier::from_u64(v)
}

fn init_env() -> App {
    App::init(
        CanisterInitData {
            custodians: vec![admin()],
            supported_interfaces: vec![
                SupportedInterface::Burn,
                SupportedInterface::TransactionHistory,
                SupportedInterface::Mint,
                SupportedInterface::Approval,
            ],
            logo: None,
            name: "nft".to_string(),
            symbol: "NFT".to_string(),
        },
        T0,
    )
}

#[test]
fn test_should_mint() {
    let mut env = init_env();

    assert!(env.dip721_mint(admin(), T0, alice(), id(1), vec![]).is_ok());

    let token = env.dip721_token_metadata(&id(1)).unwrap();
    assert_eq!(token.owner, Some(alice()));
}

#[test]
fn nft_test_should_transfer() {
    let mut env = init_env();

    assert!(env.dip721_mint(admin(), T0, admin(), id(1), vec![]).is_ok());

    assert!(env.dip721_transfer(admin(), T0, alice(), &id(1)).is_ok());
    let token = env.dip721_token_metadata(&id(1)).unwrap();
    assert_eq!(token.owner, Some(alice()));
}

#[test]
fn test_should_not_allow_transfer() {
    let mut env = init_env();

    assert!(env.dip721_mint(admin(), T0, admin(), id(1), vec![]).is_ok());

    assert!(env.dip721_transfer(alice(), T0, alice(), &id(1)).is_err());
}

#[test]
fn test_should_approve_transfer_from() {
    let mut env = init_env();

    assert!(env.dip721_mint(admin(), T0, admin(), id(1), vec![]).is_ok());

    assert!(env.dip721_approve(admin(), T0, bob(), &id(1)).is_ok());

    let token = env.dip721_token_metadata(&id(1)).unwrap();
    assert_eq!(token.operator, Some(bob()));

    assert!(env.dip721_transfer_from(bob(), T0, admin(), alice(), &id(1)).is_ok());
    let token = env.dip721_token_metadata(&id(1)).unwrap();
    assert_eq!(token.owner, Some(alice()));
}

#[test]
fn nft_test_should_burn() {
    let mut env = init_env();

    assert!(env.dip721_mint(admin(), T0, admin(), id(1), vec![]).is_ok());

    assert!(env.dip721_burn(admin(), T0, &id(1)).is_ok());

    let token = env.dip721_token_metadata(&id(1)).unwrap();

    assert!(token.is_burned);
}

#[test]
fn mint_succeeds_exactly_once() {
    let mut env = init_env();

    assert!(env.dip721_mint(admin(), T0, alice(), id(1), vec![]).is_ok());
    assert_eq!(
        env.dip721_mint(admin(), T0, bob(), id(1), vec![]),
        Err(NftError::ExistedNFT)
    );

    // even after burning, the id stays taken
    assert!(env.dip721_burn(alice(), T0, &id(1)).is_ok());
    assert_eq!(
        env.dip721_mint(admin(), T0, bob(), id(1), vec![]),
        Err(NftError::ExistedNFT)
    );
}

#[test]
fn transfer_reassigns_owner_and_clears_operator() {
    let mut env = init_env();

    env.dip721_mint(admin(), T0, admin(), id(1), vec![]).unwrap();
    env.dip721_approve(admin(), T0, bob(), &id(1)).unwrap();
    assert_eq!(env.dip721_operator_of(&id(1)).unwrap(), Some(bob()));

    env.dip721_transfer(admin(), T0, alice(), &id(1)).unwrap();
    assert_eq!(env.dip721_owner_of(&id(1)).unwrap(), Some(alice()));
    assert_eq!(env.dip721_operator_of(&id(1)).unwrap(), None);
}

#[test]
fn self_transfer_fails_and_mutates_nothing() {
    let mut env = init_env();

    env.dip721_mint(admin(), T0, admin(), id(1), vec![]).unwrap();
    let transactions_before = env.dip721_total_transactions();

    assert_eq!(
        env.dip721_transfer(admin(), T0, admin(), &id(1)),
        Err(NftError::SelfTransfer)
    );

    assert_eq!(env.dip721_owner_of(&id(1)).unwrap(), Some(admin()));
    assert_eq!(env.dip721_total_transactions(), transactions_before);
}

#[test]
fn burn_is_idempotent_failing() {
    let mut env = init_env();

    env.dip721_mint(admin(), T0, admin(), id(1), vec![]).unwrap();
    assert!(env.dip721_burn(admin(), T0, &id(1)).is_ok());

    let token = env.dip721_token_metadata(&id(1)).unwrap();
    assert_eq!(token.owner, None);
    assert!(token.is_burned);

    // a second burn fails: the store reports the terminal-state conflict,
    // and the facade's guard rejects the ownerless token even earlier
    assert_eq!(
        env.tokens.burn(&mut env.tx_history, admin(), T0, &id(1)),
        Err(NftError::ExistedNFT)
    );
    assert_eq!(env.dip721_burn(admin(), T0, &id(1)), Err(NftError::UnauthorizedOwner));

    // the burned id never shows up in owner queries again
    assert_eq!(env.dip721_balance_of(admin()), Err(NftError::OwnerNotFound));
    assert_eq!(
        env.dip721_owner_token_identifiers(admin()),
        Err(NftError::OwnerNotFound)
    );
}

#[test]
fn total_supply_never_decreases() {
    let mut env = init_env();

    env.dip721_mint(admin(), T0, admin(), id(1), vec![]).unwrap();
    env.dip721_mint(admin(), T0, alice(), id(2), vec![]).unwrap();
    assert_eq!(env.dip721_total_supply(), 2_u64);

    env.dip721_burn(admin(), T0, &id(1)).unwrap();
    assert_eq!(env.dip721_total_supply(), 2_u64);

    env.dip721_mint(admin(), T0, bob(), id(3), vec![]).unwrap();
    assert_eq!(env.dip721_total_supply(), 3_u64);
}

#[test]
fn approve_overwrites_prior_operator() {
    let mut env = init_env();

    env.dip721_mint(admin(), T0, admin(), id(1), vec![]).unwrap();
    assert!(env.dip721_approve(admin(), T0, bob(), &id(1)).is_ok());
    assert_eq!(env.dip721_operator_of(&id(1)).unwrap(), Some(bob()));

    // approving again with another operator succeeds and overwrites
    assert!(env.dip721_approve(admin(), T0, alice(), &id(1)).is_ok());
    assert_eq!(env.dip721_operator_of(&id(1)).unwrap(), Some(alice()));
}

#[test]
fn revoke_of_other_operator_is_noop_but_logs() {
    let mut env = init_env();

    env.dip721_mint(admin(), T0, admin(), id(1), vec![]).unwrap();
    env.dip721_approve(admin(), T0, bob(), &id(1)).unwrap();
    let transactions_before = env.dip721_total_transactions();

    // revoking an operator that is not the current one leaves the record
    // unchanged, yet still assigns and returns a fresh transaction id
    let tx_id = env
        .tokens
        .revoke_approval(&mut env.tx_history, admin(), T0, alice(), &id(1))
        .unwrap();
    assert_eq!(tx_id, transactions_before);
    assert_eq!(env.dip721_total_transactions(), transactions_before + 1);
    assert_eq!(env.dip721_operator_of(&id(1)).unwrap(), Some(bob()));
}

#[test]
fn tx_ids_are_dense_from_zero() {
    let mut env = init_env();

    let t1 = env.dip721_mint(admin(), T0, admin(), id(1), vec![]).unwrap();
    let t2 = env.dip721_mint(admin(), T0, alice(), id(2), vec![]).unwrap();
    let t3 = env.dip721_approve(admin(), T0, bob(), &id(1)).unwrap();
    let t4 = env.dip721_transfer(admin(), T0, alice(), &id(1)).unwrap();
    let t5 = env.dip721_burn(alice(), T0, &id(2)).unwrap();

    assert_eq!(t1, 0);
    assert_eq!(t2, 1);
    assert_eq!(t3, 2);
    assert_eq!(t4, 3);
    assert_eq!(t5, 4);
    assert_eq!(env.dip721_total_transactions(), 5_u64);

    let ev = env.dip721_transaction(3).unwrap();
    assert_eq!(ev.operation, "transfer");
    assert_eq!(ev.caller, admin());
    assert!(env.dip721_transaction(5).is_err());
}

#[test]
fn scenario_full_lifecycle() {
    let mut env = init_env();
    let a = alice();
    let b = bob();
    let c = admin();

    // mint id=1 to A
    env.dip721_mint(admin(), T0, a, id(1), vec![]).unwrap();
    assert_eq!(env.dip721_balance_of(a).unwrap(), 1_u64);

    // transfer 1 from A to B
    env.dip721_transfer(a, T0, b, &id(1)).unwrap();
    assert_eq!(env.dip721_owner_of(&id(1)).unwrap(), Some(b));
    assert_eq!(env.dip721_balance_of(a), Err(NftError::OwnerNotFound));

    // approve B as operator of a token owned by C, then transfer_from by B
    env.dip721_mint(admin(), T0, c, id(2), vec![]).unwrap();
    env.dip721_approve(c, T0, b, &id(2)).unwrap();
    let d = Principal::management_canister();
    assert!(env.dip721_transfer_from(b, T0, c, d, &id(2)).is_ok());
    assert_eq!(env.dip721_owner_of(&id(2)).unwrap(), Some(d));

    // burn id=1
    env.dip721_burn(b, T0, &id(1)).unwrap();
    assert_eq!(env.dip721_owner_of(&id(1)).unwrap(), None);
    assert!(env.dip721_token_metadata(&id(1)).unwrap().is_burned);
    assert_eq!(
        env.tokens.burn(&mut env.tx_history, b, T0, &id(1)),
        Err(NftError::ExistedNFT)
    );
    assert_eq!(env.dip721_burn(b, T0, &id(1)), Err(NftError::UnauthorizedOwner));
}

#[test]
fn empty_queries_return_not_found() {
    let env = init_env();

    assert_eq!(env.dip721_balance_of(alice()), Err(NftError::OwnerNotFound));
    assert_eq!(
        env.dip721_owner_token_identifiers(alice()),
        Err(NftError::OwnerNotFound)
    );
    assert_eq!(
        env.dip721_owner_token_metadata(alice()),
        Err(NftError::OwnerNotFound)
    );
    assert_eq!(
        env.dip721_operator_token_identifiers(alice()),
        Err(NftError::OperatorNotFound)
    );
    assert_eq!(
        env.dip721_operator_token_metadata(alice()),
        Err(NftError::OperatorNotFound)
    );
}

#[test]
fn error_variants_are_precise() {
    let mut env = init_env();
    env.dip721_mint(admin(), T0, admin(), id(1), vec![]).unwrap();

    // unknown ids
    assert_eq!(
        env.dip721_token_metadata(&id(9)),
        Err(NftError::TokenNotFound)
    );
    assert_eq!(env.dip721_transaction(9), Err(NftError::TxNotFound));

    // authorization failures
    assert_eq!(
        env.dip721_approve(alice(), T0, bob(), &id(1)),
        Err(NftError::UnauthorizedOwner)
    );
    assert_eq!(
        env.dip721_transfer(alice(), T0, bob(), &id(1)),
        Err(NftError::UnauthorizedOperator)
    );

    // stated owner does not match the record's owner
    assert_eq!(
        env.dip721_transfer_from(admin(), T0, bob(), alice(), &id(1)),
        Err(NftError::OwnerNotFound)
    );
}

#[test]
fn set_approval_for_all_with_no_tokens_is_an_error() {
    let mut env = init_env();
    assert_eq!(
        env.dip721_set_approval_for_all(alice(), T0, bob(), false),
        Err(NftError::TokenNotFound)
    );
}
