//! The authorization guard: stateless predicates over the configuration and
//! the token store answering whether a principal may perform an operation on
//! a token. Used both before a mutating call is dispatched and again inside
//! it.

use vstd::prelude::*;

verus! {

use crate::configuration::Configuration;
use crate::token_id::TokenIdentifier;
use crate::tokens::TokensStorage;
use crate::trusted::principal_eq;
use crate::types::{NftError, TokenMetadata, TokenView};
use candid::Principal;

/// Whether an incoming message may run at all, decided before its body:
/// custodian-gated methods need a custodian caller; burn and delegated
/// transfer need the token's owner or operator; approval needs the owner;
/// every other method is accepted. A method that needs a token id but was
/// handed none is rejected outright.
pub open spec fn message_allowed(
    config: Configuration,
    m: Map<nat, TokenView>,
    method: Seq<char>,
    caller: Principal,
    token: Option<nat>,
) -> bool {
    if method == "dip721_mint"@ || method == "dip721_set_logo"@ || method == "dip721_set_name"@
        || method == "dip721_set_symbol"@ || method == "dip721_set_custodians"@
        || method == "set_token_property"@ {
        config.custodians@.contains(caller)
    } else if method == "dip721_burn"@ || method == "dip721_transfer_from"@ {
        match token {
            Some(k) => m.dom().contains(k) && m[k].owner is Some
                && (m[k].owner == Some(caller) || m[k].operator == Some(caller)),
            None => false,
        }
    } else if method == "dip721_approve"@ {
        match token {
            Some(k) => m.dom().contains(k) && m[k].owner == Some(caller),
            None => false,
        }
    } else {
        true
    }
}

/// Whether a method name is a given tag.
fn method_is(method: &String, tag: &str) -> (r: bool)
    ensures
        r == (method@ == tag@),
{
    *method == tag.to_owned()
}

pub struct Inspect;

impl Inspect {
    /// Returns whether caller is custodian of the ledger.
    pub fn inspect_is_custodian(config: &Configuration, caller: Principal) -> (r: bool)
        ensures
            r == config.custodians@.contains(caller),
    {
        config.is_custodian(caller)
    }

    /// Returns whether caller is owner of the token; `TokenNotFound` for an
    /// unknown id.
    pub fn inspect_is_owner(
        store: &TokensStorage,
        caller: Principal,
        token_identifier: &TokenIdentifier,
    ) -> (r: Result<bool, NftError>)
        requires
            store.wf(),
        ensures
            match r {
                Ok(b) => store@.dom().contains(token_identifier@)
                    && b == (store@[token_identifier@].owner == Some(caller)),
                Err(e) => e == NftError::TokenNotFound
                    && !store@.dom().contains(token_identifier@),
            },
    {
        match store.get_token(token_identifier) {
            Ok(token) => {
                let b = match &token.owner {
                    Some(p) => principal_eq(p, &caller),
                    None => false,
                };
                Ok(b)
            },
            Err(e) => Err(e),
        }
    }

    /// Returns the token when caller is its owner or operator;
    /// `UnauthorizedOwner` for an ownerless (burned) token,
    /// `UnauthorizedOperator` when caller is neither owner nor operator.
    pub fn inspect_is_owner_or_operator(
        store: &TokensStorage,
        caller: Principal,
        token_identifier: &TokenIdentifier,
    ) -> (r: Result<TokenMetadata, NftError>)
        requires
            store.wf(),
        ensures
            match r {
                Ok(t) => {
                    &&& store@.dom().contains(token_identifier@)
                    &&& t@ == store@[token_identifier@]
                    &&& t@.owner is Some
                    &&& (t@.owner == Some(caller) || t@.operator == Some(caller))
                },
                Err(e) => match e {
                    NftError::TokenNotFound => !store@.dom().contains(token_identifier@),
                    NftError::UnauthorizedOwner => store@.dom().contains(token_identifier@)
                        && store@[token_identifier@].owner is None,
                    NftError::UnauthorizedOperator => {
                        &&& store@.dom().contains(token_identifier@)
                        &&& store@[token_identifier@].owner is Some
                        &&& store@[token_identifier@].owner != Some(caller)
                        &&& store@[token_identifier@].operator != Some(caller)
                    },
                    _ => false,
                },
            },
    {
        let token = match store.get_token(token_identifier) {
            Ok(token) => token,
            Err(e) => {
                return Err(e);
            },
        };
        let is_owner = match &token.owner {
            Some(p) => principal_eq(p, &caller),
            None => {
                return Err(NftError::UnauthorizedOwner);
            },
        };
        let is_operator = match &token.operator {
            Some(p) => principal_eq(p, &caller),
            None => false,
        };
        if !is_owner && !is_operator {
            return Err(NftError::UnauthorizedOperator);
        }
        Ok(token)
    }

    /// The fast-reject check run before a mutating call is dispatched: says
    /// whether the message may run at all. The token id, where the method
    /// takes one, is decoded by the message boundary and handed in here.
    pub fn inspect_message(
        config: &Configuration,
        store: &TokensStorage,
        method: &String,
        caller: Principal,
        token_identifier: Option<&TokenIdentifier>,
    ) -> (r: bool)
        requires
            store.wf(),
        ensures
            r == message_allowed(
                *config,
                store@,
                method@,
                caller,
                match token_identifier {
                    Some(t) => Some(t@),
                    None => None,
                },
            ),
    {
        if method_is(method, "dip721_mint") || method_is(method, "dip721_set_logo")
            || method_is(method, "dip721_set_name") || method_is(method, "dip721_set_symbol")
            || method_is(method, "dip721_set_custodians") || method_is(method, "set_token_property") {
            return Self::inspect_is_custodian(config, caller);
        }
        if method_is(method, "dip721_burn") || method_is(method, "dip721_transfer_from") {
            return match token_identifier {
                Some(id) => match Self::inspect_is_owner_or_operator(store, caller, id) {
                    Ok(_) => true,
                    Err(_) => false,
                },
                None => false,
            };
        }
        if method_is(method, "dip721_approve") {
            return match token_identifier {
                Some(id) => match Self::inspect_is_owner(store, caller, id) {
                    Ok(b) => b,
                    Err(_) => false,
                },
                None => false,
            };
        }
        true
    }

    /// As `inspect_is_owner_or_operator`, and also rejects a burned token
    /// with `ExistedNFT`.
    pub fn inspect_transfer_from(
        store: &TokensStorage,
        caller: Principal,
        token_identifier: &TokenIdentifier,
    ) -> (r: Result<TokenMetadata, NftError>)
        requires
            store.wf(),
        ensures
            match r {
                Ok(t) => {
                    &&& store@.dom().contains(token_identifier@)
                    &&& t@ == store@[token_identifier@]
                    &&& t@.owner is Some
                    &&& (t@.owner == Some(caller) || t@.operator == Some(caller))
                    &&& !t@.is_burned
                },
                Err(e) => match e {
                    NftError::TokenNotFound => !store@.dom().contains(token_identifier@),
                    NftError::UnauthorizedOwner => store@.dom().contains(token_identifier@)
                        && store@[token_identifier@].owner is None,
                    NftError::UnauthorizedOperator => {
                        &&& store@.dom().contains(token_identifier@)
                        &&& store@[token_identifier@].owner is Some
                        &&& store@[token_identifier@].owner != Some(caller)
                        &&& store@[token_identifier@].operator != Some(caller)
                    },
                    NftError::ExistedNFT => {
                        &&& store@.dom().contains(token_identifier@)
                        &&& store@[token_identifier@].owner is Some
                        &&& (store@[token_identifier@].owner == Some(caller)
                            || store@[token_identifier@].operator == Some(caller))
                        &&& store@[token_identifier@].is_burned
                    },
                    _ => false,
                },
            },
    {
        let token = match Self::inspect_is_owner_or_operator(store, caller, token_identifier) {
            Ok(token) => token,
            Err(e) => {
                return Err(e);
            },
        };
        if token.is_burned {
            return Err(NftError::ExistedNFT);
        }
        Ok(token)
    }
}

} // verus!
