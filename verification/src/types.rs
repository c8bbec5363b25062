//! The ledger's data model: token records, transaction events, errors,
//! declared capability flags, and the mathematical views the contracts
//! speak of.

use vstd::prelude::*;

verus! {

use crate::token_id::TokenIdentifier;
use crate::trusted::{principal_copy, value_clone};
use candid::Principal;
use dip721_rs::GenericValue;

/// Errors returned by ledger operations.
#[derive(Debug, PartialEq, Eq)]
pub enum NftError {
    SelfTransfer,
    TokenNotFound,
    TxNotFound,
    SelfApprove,
    OperatorNotFound,
    UnauthorizedOwner,
    UnauthorizedOperator,
    ExistedNFT,
    OwnerNotFound,
    Other(String),
}

/// A declared optional capability: operations outside the declared set are
/// rejected regardless of authorization.
#[derive(Debug, Clone, Copy, PartialEq, Eq, Structural)]
pub enum SupportedInterface {
    Approval,
    Burn,
    Mint,
    TransactionHistory,
}

/// The view of a property list: names as character sequences, values as-is.
pub open spec fn props_view(ps: Seq<(String, GenericValue)>) -> Seq<(Seq<char>, GenericValue)> {
    ps.map_values(|p: (String, GenericValue)| (p.0@, p.1))
}

/// Mathematical view of one token record.
pub ghost struct TokenView {
    pub id: nat,
    pub owner: Option<Principal>,
    pub operator: Option<Principal>,
    pub is_burned: bool,
    pub minted_at: u64,
    pub minted_by: Principal,
    pub transferred_at: Option<u64>,
    pub transferred_by: Option<Principal>,
    pub approved_at: Option<u64>,
    pub approved_by: Option<Principal>,
    pub burned_at: Option<u64>,
    pub burned_by: Option<Principal>,
    pub properties: Seq<(Seq<char>, GenericValue)>,
}

/// One token record: identifier, ownership, delegated operator, burn state,
/// audit fields and the ordered property list.
#[derive(Debug, PartialEq)]
pub struct TokenMetadata {
    pub token_identifier: TokenIdentifier,
    pub owner: Option<Principal>,
    pub operator: Option<Principal>,
    pub is_burned: bool,
    pub minted_at: u64,
    pub minted_by: Principal,
    pub transferred_at: Option<u64>,
    pub transferred_by: Option<Principal>,
    pub approved_at: Option<u64>,
    pub approved_by: Option<Principal>,
    pub burned_at: Option<u64>,
    pub burned_by: Option<Principal>,
    pub properties: Vec<(String, GenericValue)>,
}

impl View for TokenMetadata {
    type V = TokenView;

    open spec fn view(&self) -> TokenView {
        TokenView {
            id: self.token_identifier@,
            owner: self.owner,
            operator: self.operator,
            is_burned: self.is_burned,
            minted_at: self.minted_at,
            minted_by: self.minted_by,
            transferred_at: self.transferred_at,
            transferred_by: self.transferred_by,
            approved_at: self.approved_at,
            approved_by: self.approved_by,
            burned_at: self.burned_at,
            burned_by: self.burned_by,
            properties: props_view(self.properties@),
        }
    }
}

/// Copies a property list; the copy has the same view.
pub fn clone_properties(ps: &Vec<(String, GenericValue)>) -> (r: Vec<(String, GenericValue)>)
    ensures
        props_view(r@) == props_view(ps@),
{
    let mut r: Vec<(String, GenericValue)> = Vec::new();
    let n = ps.len();
    let mut i: usize = 0;
    while i < n
        invariant
            n == ps@.len(),
            0 <= i <= n,
            r@.len() == i,
            forall|j: int| 0 <= j < i ==> #[trigger] r@[j].0@ == ps@[j].0@ && r@[j].1 == ps@[j].1,
        decreases n - i,
    {
        let k = ps[i].0.clone();
        let v = value_clone(&ps[i].1);
        r.push((k, v));
        i = i + 1;
    }
    proof {
        assert(props_view(r@) =~= props_view(ps@));
    }
    r
}

/// Copies an optional principal.
pub fn copy_opt_principal(p: &Option<Principal>) -> (r: Option<Principal>)
    ensures
        r == *p,
{
    match p {
        Some(q) => Some(principal_copy(q)),
        None => None,
    }
}

impl Clone for TokenMetadata {
    /// A clone has the same view.
    fn clone(&self) -> (r: TokenMetadata)
        ensures
            r@ == self@,
    {
        let r = TokenMetadata {
            token_identifier: self.token_identifier.clone(),
            owner: copy_opt_principal(&self.owner),
            operator: copy_opt_principal(&self.operator),
            is_burned: self.is_burned,
            minted_at: self.minted_at,
            minted_by: principal_copy(&self.minted_by),
            transferred_at: self.transferred_at,
            transferred_by: copy_opt_principal(&self.transferred_by),
            approved_at: self.approved_at,
            approved_by: copy_opt_principal(&self.approved_by),
            burned_at: self.burned_at,
            burned_by: copy_opt_principal(&self.burned_by),
            properties: clone_properties(&self.properties),
        };
        r
    }
}

/// Mathematical view of one logged transaction.
pub ghost struct TxEventView {
    pub caller: Principal,
    pub details: Seq<(Seq<char>, GenericValue)>,
    pub operation: Seq<char>,
    pub time: u64,
}

/// One entry of the transaction history: the acting principal, an operation
/// tag, the mutated token's property snapshot, and a timestamp.
#[derive(Debug, PartialEq)]
pub struct TxEvent {
    pub caller: Principal,
    pub details: Vec<(String, GenericValue)>,
    pub operation: String,
    pub time: u64,
}

impl View for TxEvent {
    type V = TxEventView;

    open spec fn view(&self) -> TxEventView {
        TxEventView {
            caller: self.caller,
            details: props_view(self.details@),
            operation: self.operation@,
            time: self.time,
        }
    }
}

impl Clone for TxEvent {
    /// A clone has the same view.
    fn clone(&self) -> (r: TxEvent)
        ensures
            r@ == self@,
    {
        TxEvent {
            caller: principal_copy(&self.caller),
            details: clone_properties(&self.details),
            operation: self.operation.clone(),
            time: self.time,
        }
    }
}

/// What a fresh ledger is constructed from.
pub struct CanisterInitData {
    pub custodians: Vec<Principal>,
    pub supported_interfaces: Vec<SupportedInterface>,
    pub name: String,
    pub symbol: String,
    pub logo: Option<String>,
}

/// Contract-level metadata of the whole ledger.
pub struct Metadata {
    pub created_at: u64,
    pub custodians: Vec<Principal>,
    pub logo: Option<String>,
    pub name: Option<String>,
    pub symbol: Option<String>,
    pub upgraded_at: u64,
}

/// Usage statistics of the whole ledger.
pub struct Stats {
    pub cycles: u64,
    pub total_supply: u64,
    pub total_transactions: u64,
    pub total_unique_holders: u64,
}

} // verus!
