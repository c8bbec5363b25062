//! The ledger facade: composes the configuration, the token store and the
//! transaction history into the token-standard operation set. Every mutating
//! call passes the authorization guard before it touches the store; queries
//! read the store and the configuration directly.
//!
//! The acting principal and the current time are supplied by the caller of
//! each operation: the ledger itself never reads the environment.

use vstd::prelude::*;

verus! {

use crate::configuration::Configuration;
use crate::inspect::Inspect;
use crate::token_id::TokenIdentifier;
use crate::tokens::{
    apply_approval, approved_view, burned_view, distinct_ids, holder_set, ids_of,
    lemma_filtered_sorted, lemma_owned_ids_iff, lemma_operated_ids_iff, minted_view, owned_ids,
    operated_ids, owner_pred, prop_set_view, transferred_view, TokensStorage,
};
use crate::trusted::principal_eq;
use crate::tx_history::TxHistory;
use crate::types::{
    props_view, CanisterInitData, Metadata, NftError, Stats, SupportedInterface, TokenMetadata,
    TokenView, TxEvent, TxEventView,
};
use candid::Principal;
use dip721_rs::GenericValue;

/// The whole ledger: configuration, token store and transaction history,
/// owned in one place and passed by reference into each operation.
pub struct App {
    pub config: Configuration,
    pub tokens: TokensStorage,
    pub tx_history: TxHistory,
}

impl App {
    /// Well-formed ledger.
    pub open spec fn wf(&self) -> bool {
        self.tokens.wf()
    }

    /// On init set custodians, capabilities and display metadata.
    pub fn init(init_data: CanisterInitData, time: u64) -> (r: App)
        ensures
            r.wf(),
            r.tokens@ == Map::<nat, crate::types::TokenView>::empty(),
            r.tokens.entries() == Seq::<crate::types::TokenView>::empty(),
            r.tx_history@ == Seq::<crate::types::TxEventView>::empty(),
            r.config.custodians@ == init_data.custodians@,
            r.config.supported_interfaces@ == init_data.supported_interfaces@,
            r.config.name == Some(init_data.name),
            r.config.symbol == Some(init_data.symbol),
            r.config.logo == init_data.logo,
            r.config.created_at == time,
            r.config.upgraded_at == None::<u64>,
    {
        let CanisterInitData { custodians, supported_interfaces, name, symbol, logo } = init_data;
        let mut config = Configuration::new(time);
        config.set_custodians(custodians);
        config.set_supported_interfaces(supported_interfaces);
        config.set_name(name);
        config.set_symbol(symbol);
        match logo {
            Some(l) => config.set_logo(l),
            None => {},
        }
        App { config, tokens: TokensStorage::new(), tx_history: TxHistory::new() }
    }

    /// Task to execute on post upgrade: stamp the upgrade timestamp.
    pub fn post_upgrade(&mut self, time: u64)
        requires
            old(self).wf(),
        ensures
            final(self).wf(),
            final(self).config == (Configuration { upgraded_at: Some(time), ..old(self).config }),
            final(self).tokens == old(self).tokens,
            final(self).tx_history == old(self).tx_history,
    {
        self.config.set_upgraded_at(time);
    }

    /// Returns the metadata of the ledger.
    pub fn dip721_metadata(&self) -> (r: Metadata)
        ensures
            r.created_at == self.config.created_at,
            r.custodians@ == self.config.custodians@,
            r.logo == self.config.logo,
            r.name == self.config.name,
            r.symbol == self.config.symbol,
            r.upgraded_at == match self.config.upgraded_at {
                Some(t) => t,
                None => self.config.created_at,
            },
    {
        Metadata {
            created_at: self.config.get_created_at(),
            custodians: self.config.get_custodians(),
            logo: self.config.get_logo(),
            name: self.config.get_name(),
            symbol: self.config.get_symbol(),
            upgraded_at: self.config.get_upgraded_at(),
        }
    }

    /// Returns the stats of the ledger; the cycle balance is supplied by the
    /// environment.
    pub fn dip721_stats(&self, cycles: u64) -> (r: Stats)
        requires
            self.wf(),
        ensures
            r.cycles == cycles,
            r.total_supply == self.tokens@.len(),
            r.total_transactions == self.tx_history@.len(),
            r.total_unique_holders == holder_set(self.tokens@).len(),
    {
        Stats {
            cycles,
            total_supply: self.dip721_total_supply(),
            total_transactions: self.dip721_total_transactions(),
            total_unique_holders: self.dip721_total_unique_holders(),
        }
    }

    /// Returns the logo of the ledger.
    pub fn dip721_logo(&self) -> (r: Option<String>)
        ensures
            r == self.config.logo,
    {
        self.config.get_logo()
    }

    /// Sets the logo. Caller must be a custodian; an unauthorized call is
    /// rejected before dispatch, so it is excluded here.
    pub fn dip721_set_logo(&mut self, caller: Principal, logo: String)
        requires
            old(self).wf(),
            old(self).config.custodians@.contains(caller),
        ensures
            final(self).wf(),
            final(self).config == (Configuration { logo: Some(logo), ..old(self).config }),
            final(self).tokens == old(self).tokens,
            final(self).tx_history == old(self).tx_history,
    {
        self.config.set_logo(logo);
    }

    /// Returns the name of the ledger.
    pub fn dip721_name(&self) -> (r: Option<String>)
        ensures
            r == self.config.name,
    {
        self.config.get_name()
    }

    /// Sets the name. Caller must be a custodian.
    pub fn dip721_set_name(&mut self, caller: Principal, name: String)
        requires
            old(self).wf(),
            old(self).config.custodians@.contains(caller),
        ensures
            final(self).wf(),
            final(self).config == (Configuration { name: Some(name), ..old(self).config }),
            final(self).tokens == old(self).tokens,
            final(self).tx_history == old(self).tx_history,
    {
        self.config.set_name(name);
    }

    /// Returns the symbol of the ledger.
    pub fn dip721_symbol(&self) -> (r: Option<String>)
        ensures
            r == self.config.symbol,
    {
        self.config.get_symbol()
    }

    /// Sets the symbol. Caller must be a custodian.
    pub fn dip721_set_symbol(&mut self, caller: Principal, symbol: String)
        requires
            old(self).wf(),
            old(self).config.custodians@.contains(caller),
        ensures
            final(self).wf(),
            final(self).config == (Configuration { symbol: Some(symbol), ..old(self).config }),
            final(self).tokens == old(self).tokens,
            final(self).tx_history == old(self).tx_history,
    {
        self.config.set_symbol(symbol);
    }

    /// Returns the custodian list.
    pub fn dip721_custodians(&self) -> (r: Vec<Principal>)
        ensures
            r@ == self.config.custodians@,
    {
        self.config.get_custodians()
    }

    /// Replaces the custodian list. Caller must be a custodian.
    pub fn dip721_set_custodians(&mut self, caller: Principal, custodians: Vec<Principal>)
        requires
            old(self).wf(),
            old(self).config.custodians@.contains(caller),
        ensures
            final(self).wf(),
            final(self).config == (Configuration { custodians, ..old(self).config }),
            final(self).tokens == old(self).tokens,
            final(self).tx_history == old(self).tx_history,
    {
        self.config.set_custodians(custodians);
    }

    /// Returns the number of distinct principals that own at least one token.
    pub fn dip721_total_unique_holders(&self) -> (r: u64)
        requires
            self.wf(),
        ensures
            r == holder_set(self.tokens@).len(),
    {
        self.tokens.total_unique_holders()
    }

    /// Returns the metadata for a token.
    pub fn dip721_token_metadata(&self, token_identifier: &TokenIdentifier) -> (r: Result<
        TokenMetadata,
        NftError,
    >)
        requires
            self.wf(),
        ensures
            match r {
                Ok(t) => self.tokens@.dom().contains(token_identifier@)
                    && t@ == self.tokens@[token_identifier@],
                Err(e) => e == NftError::TokenNotFound
                    && !self.tokens@.dom().contains(token_identifier@),
            },
    {
        self.tokens.get_token(token_identifier)
    }

    /// Returns the count of tokens owned by a principal; a principal that
    /// owns none gets `OwnerNotFound`, never a zero count.
    pub fn dip721_balance_of(&self, owner: Principal) -> (r: Result<u64, NftError>)
        requires
            self.wf(),
        ensures
            match r {
                Ok(count) => count == owned_ids(self.tokens.entries(), owner).len() && count > 0,
                Err(e) => e == NftError::OwnerNotFound
                    && owned_ids(self.tokens.entries(), owner).len() == 0,
            },
    {
        let tokens = self.tokens.tokens_by_owner(owner);
        proof {
            assert(ids_of(tokens@).len() == tokens@.len());
        }
        if tokens.len() == 0 {
            Err(NftError::OwnerNotFound)
        } else {
            Ok(tokens.len() as u64)
        }
    }

    /// Returns the owner of a token; `None` exactly for a burned token.
    pub fn dip721_owner_of(&self, token_identifier: &TokenIdentifier) -> (r: Result<
        Option<Principal>,
        NftError,
    >)
        requires
            self.wf(),
        ensures
            match r {
                Ok(o) => self.tokens@.dom().contains(token_identifier@)
                    && o == self.tokens@[token_identifier@].owner,
                Err(e) => e == NftError::TokenNotFound
                    && !self.tokens@.dom().contains(token_identifier@),
            },
    {
        match self.tokens.get_token(token_identifier) {
            Ok(t) => Ok(t.owner),
            Err(e) => Err(e),
        }
    }

    /// Returns the identifiers of the tokens owned by a principal, ascending;
    /// `OwnerNotFound` when there are none.
    pub fn dip721_owner_token_identifiers(&self, owner: Principal) -> (r: Result<
        Vec<TokenIdentifier>,
        NftError,
    >)
        requires
            self.wf(),
        ensures
            match r {
                Ok(v) => ids_of(v@) == owned_ids(self.tokens.entries(), owner) && v@.len() > 0,
                Err(e) => e == NftError::OwnerNotFound
                    && owned_ids(self.tokens.entries(), owner).len() == 0,
            },
    {
        let tokens = self.tokens.tokens_by_owner(owner);
        proof {
            assert(ids_of(tokens@).len() == tokens@.len());
        }
        if tokens.len() == 0 {
            Err(NftError::OwnerNotFound)
        } else {
            Ok(tokens)
        }
    }

    /// Returns the records of the tokens owned by a principal, ascending by
    /// id; `OwnerNotFound` when there are none.
    pub fn dip721_owner_token_metadata(&self, owner: Principal) -> (r: Result<
        Vec<TokenMetadata>,
        NftError,
    >)
        requires
            self.wf(),
        ensures
            match r {
                Ok(v) => {
                    let ids = owned_ids(self.tokens.entries(), owner);
                    &&& v@.len() == ids.len()
                    &&& v@.len() > 0
                    &&& forall|j: int| 0 <= j < v@.len() ==> (#[trigger] v@[j])@ == self.tokens@[ids[j]]
                },
                Err(e) => e == NftError::OwnerNotFound
                    && owned_ids(self.tokens.entries(), owner).len() == 0,
            },
    {
        let ids = match self.dip721_owner_token_identifiers(owner) {
            Ok(ids) => ids,
            Err(e) => {
                return Err(e);
            },
        };
        let ghost os = owned_ids(self.tokens.entries(), owner);
        let n = ids.len();
        let mut v: Vec<TokenMetadata> = Vec::new();
        let mut j: usize = 0;
        while j < n
            invariant
                self.wf(),
                n == ids@.len(),
                ids_of(ids@) == os,
                os == owned_ids(self.tokens.entries(), owner),
                0 <= j <= n,
                v@.len() == j,
                forall|l: int| 0 <= l < j ==> (#[trigger] v@[l])@ == self.tokens@[os[l]],
            decreases n - j,
        {
            proof {
                assert(os[j as int] == ids@[j as int]@);
                assert(os.contains(os[j as int]));
                lemma_owned_ids_iff(self.tokens.entries(), owner, os[j as int]);
            }
            match self.tokens.get_token(&ids[j]) {
                Ok(t) => {
                    v.push(t);
                },
                Err(_) => {
                    proof {
                        assert(false);
                    }
                },
            }
            j = j + 1;
        }
        Ok(v)
    }

    /// Returns the operator of a token.
    pub fn dip721_operator_of(&self, token_identifier: &TokenIdentifier) -> (r: Result<
        Option<Principal>,
        NftError,
    >)
        requires
            self.wf(),
        ensures
            match r {
                Ok(o) => self.tokens@.dom().contains(token_identifier@)
                    && o == self.tokens@[token_identifier@].operator,
                Err(e) => e == NftError::TokenNotFound
                    && !self.tokens@.dom().contains(token_identifier@),
            },
    {
        match self.tokens.get_token(token_identifier) {
            Ok(t) => Ok(t.operator),
            Err(e) => Err(e),
        }
    }

    /// Returns the identifiers of the tokens whose operator is the given
    /// principal, ascending; `OperatorNotFound` when there are none.
    pub fn dip721_operator_token_identifiers(&self, operator: Principal) -> (r: Result<
        Vec<TokenIdentifier>,
        NftError,
    >)
        requires
            self.wf(),
        ensures
            match r {
                Ok(v) => ids_of(v@) == operated_ids(self.tokens.entries(), operator)
                    && v@.len() > 0,
                Err(e) => e == NftError::OperatorNotFound
                    && operated_ids(self.tokens.entries(), operator).len() == 0,
            },
    {
        let tokens = self.tokens.tokens_by_operator(operator);
        proof {
            assert(ids_of(tokens@).len() == tokens@.len());
        }
        if tokens.len() == 0 {
            Err(NftError::OperatorNotFound)
        } else {
            Ok(tokens)
        }
    }

    /// Returns the records of the tokens whose operator is the given
    /// principal, ascending by id; `OperatorNotFound` when there are none.
    pub fn dip721_operator_token_metadata(&self, operator: Principal) -> (r: Result<
        Vec<TokenMetadata>,
        NftError,
    >)
        requires
            self.wf(),
        ensures
            match r {
                Ok(v) => {
                    let ids = operated_ids(self.tokens.entries(), operator);
                    &&& v@.len() == ids.len()
                    &&& v@.len() > 0
                    &&& forall|j: int| 0 <= j < v@.len() ==> (#[trigger] v@[j])@ == self.tokens@[ids[j]]
                },
                Err(e) => e == NftError::OperatorNotFound
                    && operated_ids(self.tokens.entries(), operator).len() == 0,
            },
    {
        let ids = match self.dip721_operator_token_identifiers(operator) {
            Ok(ids) => ids,
            Err(e) => {
                return Err(e);
            },
        };
        let ghost os = operated_ids(self.tokens.entries(), operator);
        let n = ids.len();
        let mut v: Vec<TokenMetadata> = Vec::new();
        let mut j: usize = 0;
        while j < n
            invariant
                self.wf(),
                n == ids@.len(),
                ids_of(ids@) == os,
                os == operated_ids(self.tokens.entries(), operator),
                0 <= j <= n,
                v@.len() == j,
                forall|l: int| 0 <= l < j ==> (#[trigger] v@[l])@ == self.tokens@[os[l]],
            decreases n - j,
        {
            proof {
                assert(os[j as int] == ids@[j as int]@);
                assert(os.contains(os[j as int]));
                lemma_operated_ids_iff(self.tokens.entries(), operator, os[j as int]);
            }
            match self.tokens.get_token(&ids[j]) {
                Ok(t) => {
                    v.push(t);
                },
                Err(_) => {
                    proof {
                        assert(false);
                    }
                },
            }
            j = j + 1;
        }
        Ok(v)
    }

    /// Returns the list of declared capabilities.
    pub fn dip721_supported_interfaces(&self) -> (r: Vec<SupportedInterface>)
        ensures
            r@ == self.config.supported_interfaces@,
    {
        self.config.get_supported_interfaces()
    }

    /// Returns the total supply: burned tokens still count.
    pub fn dip721_total_supply(&self) -> (r: u64)
        requires
            self.wf(),
        ensures
            r == self.tokens@.len(),
    {
        self.tokens.total_supply()
    }

    /// Returns the total number of transactions logged so far.
    pub fn dip721_total_transactions(&self) -> (r: u64)
        ensures
            r == self.tx_history@.len(),
    {
        self.tx_history.count()
    }

    /// Grants the operator delegated authority over one token. Caller must
    /// be the token's owner; needs the approval capability.
    pub fn dip721_approve(
        &mut self,
        caller: Principal,
        time: u64,
        operator: Principal,
        token_identifier: &TokenIdentifier,
    ) -> (r: Result<u64, NftError>)
        requires
            old(self).wf(),
        ensures
            final(self).wf(),
            final(self).config == old(self).config,
            match r {
                Ok(txid) => {
                    &&& old(self).tokens@.dom().contains(token_identifier@)
                    &&& old(self).tokens@[token_identifier@].owner == Some(caller)
                    &&& old(self).config.supported_interfaces@.contains(SupportedInterface::Approval)
                    &&& final(self).tokens@ == old(self).tokens@.insert(
                        token_identifier@,
                        approved_view(old(self).tokens@[token_identifier@], operator, caller, time),
                    )
                    &&& txid == old(self).tx_history@.len()
                    &&& final(self).tx_history@ == old(self).tx_history@.push(TxEventView {
                        caller,
                        details: old(self).tokens@[token_identifier@].properties,
                        operation: "approve"@,
                        time,
                    })
                },
                Err(e) => {
                    &&& *final(self) == *old(self)
                    &&& match e {
                        NftError::TokenNotFound => !old(self).tokens@.dom().contains(
                            token_identifier@,
                        ),
                        NftError::UnauthorizedOwner => old(self).tokens@.dom().contains(
                            token_identifier@,
                        ) && old(self).tokens@[token_identifier@].owner != Some(caller),
                        NftError::Other(msg) => {
                            &&& old(self).tokens@.dom().contains(token_identifier@)
                            &&& old(self).tokens@[token_identifier@].owner == Some(caller)
                            &&& !old(self).config.supported_interfaces@.contains(
                                SupportedInterface::Approval,
                            )
                            &&& msg@ == "Not implemented"@
                        },
                        _ => false,
                    }
                },
            },
    {
        match Inspect::inspect_is_owner(&self.tokens, caller, token_identifier) {
            Ok(true) => {},
            Ok(false) => {
                return Err(NftError::UnauthorizedOwner);
            },
            Err(e) => {
                return Err(e);
            },
        }
        if self.config.has_interface(SupportedInterface::Approval) {
            self.tokens.approve(&mut self.tx_history, caller, time, operator, token_identifier)
        } else {
            Err(NftError::Other("Not implemented".to_owned()))
        }
    }

    /// Approves or revokes the operator on every token the caller currently
    /// owns; with zero owned tokens it returns `TokenNotFound` rather than
    /// succeeding trivially. Returns the last transaction id it assigned.
    pub fn dip721_set_approval_for_all(
        &mut self,
        caller: Principal,
        time: u64,
        operator: Principal,
        approved: bool,
    ) -> (r: Result<u64, NftError>)
        requires
            old(self).wf(),
        ensures
            final(self).wf(),
            final(self).config == old(self).config,
            match r {
                Ok(txid) => {
                    let os = owned_ids(old(self).tokens.entries(), caller);
                    &&& old(self).config.supported_interfaces@.contains(SupportedInterface::Approval)
                    &&& os.len() > 0
                    &&& final(self).tokens@.dom() == old(self).tokens@.dom()
                    &&& forall|k: nat| #[trigger] old(self).tokens@.dom().contains(k)
                        ==> final(self).tokens@[k] == apply_approval(
                            old(self).tokens@[k],
                            caller,
                            time,
                            operator,
                            approved,
                        )
                    &&& final(self).tx_history@.len() == old(self).tx_history@.len() + os.len()
                    &&& txid + 1 == final(self).tx_history@.len()
                    &&& forall|j: int| 0 <= j < old(self).tx_history@.len()
                        ==> final(self).tx_history@[j] == old(self).tx_history@[j]
                    &&& forall|l: int| 0 <= l < os.len()
                        ==> final(self).tx_history@[old(self).tx_history@.len() + l]
                            == (TxEventView {
                                caller,
                                details: old(self).tokens@[#[trigger] os[l]].properties,
                                operation: "approve"@,
                                time,
                            })
                },
                Err(e) => {
                    &&& *final(self) == *old(self)
                    &&& match e {
                        NftError::TokenNotFound => old(self).config.supported_interfaces@.contains(
                            SupportedInterface::Approval,
                        ) && owned_ids(old(self).tokens.entries(), caller).len() == 0,
                        NftError::Other(msg) => !old(self).config.supported_interfaces@.contains(
                            SupportedInterface::Approval,
                        ) && msg@ == "Not implemented"@,
                        _ => false,
                    }
                },
            },
    {
        if !self.config.has_interface(SupportedInterface::Approval) {
            return Err(NftError::Other("Not implemented".to_owned()));
        }
        let ids = self.tokens.tokens_by_owner(caller);
        proof {
            assert(ids_of(ids@).len() == ids@.len());
        }
        if ids.len() == 0 {
            return Err(NftError::TokenNotFound);
        }
        let ghost old_tokens = self.tokens@;
        let ghost old_entries = self.tokens.entries();
        let ghost old_tx = self.tx_history@;
        let ghost os = owned_ids(old_entries, caller);
        proof {
            lemma_filtered_sorted(old_entries, owner_pred(caller));
            assert(forall|a: int, b: int| 0 <= a < b < os.len() ==> os[a] < os[b]) by {
                assert(forall|a: int| 0 <= a < os.len()
                    ==> os[a] == (#[trigger] old_entries.filter(owner_pred(caller))[a]).id);
            }
            assert forall|k: nat| #[trigger] os.contains(k) implies old_tokens.dom().contains(k)
                && old_tokens[k].owner == Some(caller) && !old_tokens[k].is_burned by {
                lemma_owned_ids_iff(old_entries, caller, k);
            }
        }
        let n = ids.len();
        let mut last: u64 = 0;
        let mut j: usize = 0;
        while j < n
            invariant
                self.tokens.wf(),
                self.config == old(self).config,
                old(self).config.supported_interfaces@.contains(SupportedInterface::Approval),
                n == ids@.len(),
                n > 0,
                ids_of(ids@) == os,
                os == owned_ids(old_entries, caller),
                old_entries == old(self).tokens.entries(),
                old_tokens == old(self).tokens@,
                old_tx == old(self).tx_history@,
                forall|a: int, b: int| 0 <= a < b < os.len() ==> os[a] < os[b],
                forall|k: nat| #[trigger] os.contains(k) ==> old_tokens.dom().contains(k)
                    && old_tokens[k].owner == Some(caller) && !old_tokens[k].is_burned,
                0 <= j <= n,
                self.tokens@.dom() =~= old_tokens.dom(),
                forall|l: int| 0 <= l < j ==> self.tokens@[#[trigger] os[l]] == apply_approval(
                    old_tokens[os[l]],
                    caller,
                    time,
                    operator,
                    approved,
                ),
                forall|k: nat| #[trigger] old_tokens.dom().contains(k)
                    && !os.take(j as int).contains(k) ==> self.tokens@[k] == old_tokens[k],
                self.tx_history@.len() == old_tx.len() + j,
                forall|l: int| 0 <= l < old_tx.len()
                    ==> #[trigger] self.tx_history@[l] == old_tx[l],
                forall|l: int| 0 <= l < j ==> self.tx_history@[old_tx.len() + l]
                    == (TxEventView {
                        caller,
                        details: old_tokens[#[trigger] os[l]].properties,
                        operation: "approve"@,
                        time,
                    }),
                j > 0 ==> last == old_tx.len() + j - 1,
            decreases n - j,
        {
            let ghost k = os[j as int];
            proof {
                assert(k == ids@[j as int]@);
                assert(os.contains(k));
                assert(!os.take(j as int).contains(k)) by {
                    if os.take(j as int).contains(k) {
                        let l = choose|l: int| 0 <= l < j && os.take(j as int)[l] == k;
                        assert(os[l] == k && os[l] < os[j as int]);
                    }
                }
                assert(self.tokens@[k] == old_tokens[k]);
            }
            let r1 = if approved {
                self.tokens.approve(&mut self.tx_history, caller, time, operator, &ids[j])
            } else {
                self.tokens.revoke_approval(&mut self.tx_history, caller, time, operator, &ids[j])
            };
            match r1 {
                Ok(t) => {
                    last = t;
                },
                Err(_) => {
                    proof {
                        assert(false);
                    }
                },
            }
            proof {
                assert(os.take(j as int + 1) =~= os.take(j as int).push(k));
                assert(self.tokens@.dom() =~= old_tokens.dom());
                assert(self.tokens@[k] == apply_approval(old_tokens[k], caller, time, operator, approved));
                assert forall|l: int| 0 <= l < j + 1 implies self.tokens@[#[trigger] os[l]]
                    == apply_approval(old_tokens[os[l]], caller, time, operator, approved) by {
                    if l < j {
                        assert(os[l] < os[j as int]);
                    }
                }
                assert forall|k2: nat| #[trigger] old_tokens.dom().contains(k2)
                    && !os.take(j as int + 1).contains(k2)
                    implies self.tokens@[k2] == old_tokens[k2] by {
                    assert(os.take(j as int + 1)[j as int] == k);
                    assert(os.take(j as int + 1).contains(k));
                    if os.take(j as int).contains(k2) {
                        let l = choose|l: int| 0 <= l < j && os.take(j as int)[l] == k2;
                        assert(os.take(j as int + 1)[l] == k2);
                    }
                }
            }
            j = j + 1;
        }
        proof {
            assert(os.take(n as int) =~= os);
            assert forall|k: nat| #[trigger] old_tokens.dom().contains(k)
                implies self.tokens@[k] == apply_approval(
                    old_tokens[k],
                    caller,
                    time,
                    operator,
                    approved,
                ) by {
                lemma_owned_ids_iff(old_entries, caller, k);
                if os.contains(k) {
                    let l = choose|l: int| 0 <= l < os.len() && os[l] == k;
                    assert(self.tokens@[os[l]] == apply_approval(
                        old_tokens[os[l]], caller, time, operator, approved));
                } else {
                    assert(self.tokens@[k] == old_tokens[k]);
                }
            }
        }
        Ok(last)
    }

    /// Returns whether the operator is approved on every token the owner
    /// currently owns; an owner with zero tokens gets `OwnerNotFound`.
    pub fn dip721_is_approved_for_all(&self, owner: Principal, operator: Principal) -> (r: Result<
        bool,
        NftError,
    >)
        requires
            self.wf(),
        ensures
            match r {
                Ok(b) => {
                    &&& self.config.supported_interfaces@.contains(SupportedInterface::Approval)
                    &&& owned_ids(self.tokens.entries(), owner).len() > 0
                    &&& b == (forall|k: nat| #[trigger] owned_ids(
                        self.tokens.entries(),
                        owner,
                    ).contains(k) ==> self.tokens@[k].operator == Some(operator))
                },
                Err(e) => match e {
                    NftError::OwnerNotFound => self.config.supported_interfaces@.contains(
                        SupportedInterface::Approval,
                    ) && owned_ids(self.tokens.entries(), owner).len() == 0,
                    NftError::Other(msg) => !self.config.supported_interfaces@.contains(
                        SupportedInterface::Approval,
                    ) && msg@ == "Not implemented"@,
                    _ => false,
                },
            },
    {
        if !self.config.has_interface(SupportedInterface::Approval) {
            return Err(NftError::Other("Not implemented".to_owned()));
        }
        proof {
            assert(self.config.supported_interfaces@.contains(SupportedInterface::Approval));
        }
        let ids = match self.dip721_owner_token_identifiers(owner) {
            Ok(ids) => ids,
            Err(e) => {
                return Err(e);
            },
        };
        let ghost os = owned_ids(self.tokens.entries(), owner);
        let n = ids.len();
        let mut j: usize = 0;
        while j < n
            invariant
                self.wf(),
                self.config.supported_interfaces@.contains(SupportedInterface::Approval),
                n == ids@.len(),
                n > 0,
                ids_of(ids@) == os,
                os == owned_ids(self.tokens.entries(), owner),
                0 <= j <= n,
                forall|l: int| 0 <= l < j
                    ==> self.tokens@[#[trigger] os[l]].operator == Some(operator),
            decreases n - j,
        {
            proof {
                assert(os[j as int] == ids@[j as int]@);
                assert(os.contains(os[j as int]));
                lemma_owned_ids_iff(self.tokens.entries(), owner, os[j as int]);
            }
            let token = match self.tokens.get_token(&ids[j]) {
                Ok(t) => t,
                Err(e) => {
                    proof {
                        assert(false);
                    }
                    return Err(e);
                },
            };
            let same = match &token.operator {
                Some(p) => principal_eq(p, &operator),
                None => false,
            };
            if !same {
                proof {
                    let w = os[j as int];
                    assert(ids_of(ids@).len() == ids@.len());
                    assert(owned_ids(self.tokens.entries(), owner).len() > 0);
                    assert(owned_ids(self.tokens.entries(), owner).contains(w));
                    assert(self.tokens@[w].operator != Some(operator));
                    assert(!(forall|k: nat| #[trigger] owned_ids(
                        self.tokens.entries(),
                        owner,
                    ).contains(k) ==> self.tokens@[k].operator == Some(operator)));
                }
                return Ok(false);
            }
            j = j + 1;
        }
        proof {
            assert forall|k: nat| #[trigger] owned_ids(self.tokens.entries(), owner).contains(k)
                implies self.tokens@[k].operator == Some(operator) by {
                let l = choose|l: int| 0 <= l < os.len() && os[l] == k;
                assert(self.tokens@[os[l]].operator == Some(operator));
            }
        }
        Ok(true)
    }

    /// Sends the caller's token to another principal.
    pub fn dip721_transfer(
        &mut self,
        caller: Principal,
        time: u64,
        to: Principal,
        token_identifier: &TokenIdentifier,
    ) -> (r: Result<u64, NftError>)
        requires
            old(self).wf(),
        ensures
            final(self).wf(),
            final(self).config == old(self).config,
            match r {
                Ok(txid) => {
                    &&& old(self).tokens@.dom().contains(token_identifier@)
                    &&& old(self).tokens@[token_identifier@].owner == Some(caller)
                    &&& !old(self).tokens@[token_identifier@].is_burned
                    &&& caller != to
                    &&& final(self).tokens@ == old(self).tokens@.insert(
                        token_identifier@,
                        transferred_view(old(self).tokens@[token_identifier@], to, caller, time),
                    )
                    &&& txid == old(self).tx_history@.len()
                    &&& final(self).tx_history@ == old(self).tx_history@.push(TxEventView {
                        caller,
                        details: old(self).tokens@[token_identifier@].properties,
                        operation: "transfer"@,
                        time,
                    })
                },
                Err(e) => {
                    &&& *final(self) == *old(self)
                    &&& match e {
                        NftError::TokenNotFound => !old(self).tokens@.dom().contains(
                            token_identifier@,
                        ),
                        NftError::UnauthorizedOwner => old(self).tokens@.dom().contains(
                            token_identifier@,
                        ) && old(self).tokens@[token_identifier@].owner is None,
                        NftError::UnauthorizedOperator => {
                            &&& old(self).tokens@.dom().contains(token_identifier@)
                            &&& old(self).tokens@[token_identifier@].owner is Some
                            &&& old(self).tokens@[token_identifier@].owner != Some(caller)
                            &&& old(self).tokens@[token_identifier@].operator != Some(caller)
                        },
                        NftError::ExistedNFT => {
                            &&& old(self).tokens@.dom().contains(token_identifier@)
                            &&& old(self).tokens@[token_identifier@].is_burned
                        },
                        NftError::OwnerNotFound => {
                            &&& old(self).tokens@.dom().contains(token_identifier@)
                            &&& old(self).tokens@[token_identifier@].owner != Some(caller)
                        },
                        NftError::SelfTransfer => {
                            &&& old(self).tokens@.dom().contains(token_identifier@)
                            &&& old(self).tokens@[token_identifier@].owner == Some(caller)
                            &&& caller == to
                        },
                        _ => false,
                    }
                },
            },
    {
        self.dip721_transfer_from(caller, time, caller, to, token_identifier)
    }

    /// Transfers a token out of the stated owner's balance; the caller must
    /// be the token's owner or operator, the stated owner must match, and the
    /// destination must differ from the owner.
    pub fn dip721_transfer_from(
        &mut self,
        caller: Principal,
        time: u64,
        owner: Principal,
        to: Principal,
        token_identifier: &TokenIdentifier,
    ) -> (r: Result<u64, NftError>)
        requires
            old(self).wf(),
        ensures
            final(self).wf(),
            final(self).config == old(self).config,
            match r {
                Ok(txid) => {
                    &&& old(self).tokens@.dom().contains(token_identifier@)
                    &&& old(self).tokens@[token_identifier@].owner == Some(owner)
                    &&& (old(self).tokens@[token_identifier@].owner == Some(caller)
                        || old(self).tokens@[token_identifier@].operator == Some(caller))
                    &&& !old(self).tokens@[token_identifier@].is_burned
                    &&& owner != to
                    &&& final(self).tokens@ == old(self).tokens@.insert(
                        token_identifier@,
                        transferred_view(old(self).tokens@[token_identifier@], to, caller, time),
                    )
                    &&& txid == old(self).tx_history@.len()
                    &&& final(self).tx_history@ == old(self).tx_history@.push(TxEventView {
                        caller,
                        details: old(self).tokens@[token_identifier@].properties,
                        operation: "transfer"@,
                        time,
                    })
                },
                Err(e) => {
                    &&& *final(self) == *old(self)
                    &&& match e {
                        NftError::TokenNotFound => !old(self).tokens@.dom().contains(
                            token_identifier@,
                        ),
                        NftError::UnauthorizedOwner => old(self).tokens@.dom().contains(
                            token_identifier@,
                        ) && old(self).tokens@[token_identifier@].owner is None,
                        NftError::UnauthorizedOperator => {
                            &&& old(self).tokens@.dom().contains(token_identifier@)
                            &&& old(self).tokens@[token_identifier@].owner is Some
                            &&& old(self).tokens@[token_identifier@].owner != Some(caller)
                            &&& old(self).tokens@[token_identifier@].operator != Some(caller)
                        },
                        NftError::ExistedNFT => {
                            &&& old(self).tokens@.dom().contains(token_identifier@)
                            &&& old(self).tokens@[token_identifier@].is_burned
                        },
                        NftError::OwnerNotFound => {
                            &&& old(self).tokens@.dom().contains(token_identifier@)
                            &&& old(self).tokens@[token_identifier@].owner != Some(owner)
                        },
                        NftError::SelfTransfer => {
                            &&& old(self).tokens@.dom().contains(token_identifier@)
                            &&& old(self).tokens@[token_identifier@].owner == Some(owner)
                            &&& owner == to
                        },
                        _ => false,
                    }
                },
            },
    {
        let token = match Inspect::inspect_transfer_from(&self.tokens, caller, token_identifier) {
            Ok(t) => t,
            Err(e) => {
                return Err(e);
            },
        };
        let owner_matches = match &token.owner {
            Some(p) => principal_eq(p, &owner),
            None => false,
        };
        if !owner_matches {
            return Err(NftError::OwnerNotFound);
        }
        let self_transfer = match &token.owner {
            Some(p) => principal_eq(p, &to),
            None => false,
        };
        if self_transfer {
            return Err(NftError::SelfTransfer);
        }
        self.tokens.transfer(&mut self.tx_history, caller, time, token_identifier, to)
    }

    /// Mints a fresh token to a recipient. Caller must be a custodian; needs
    /// the mint capability; the id must be unused, burned ids included.
    pub fn dip721_mint(
        &mut self,
        caller: Principal,
        time: u64,
        to: Principal,
        token_identifier: TokenIdentifier,
        properties: Vec<(String, GenericValue)>,
    ) -> (r: Result<u64, NftError>)
        requires
            old(self).wf(),
            old(self).config.custodians@.contains(caller),
        ensures
            final(self).wf(),
            final(self).config == old(self).config,
            match r {
                Ok(txid) => {
                    &&& old(self).config.supported_interfaces@.contains(SupportedInterface::Mint)
                    &&& !old(self).tokens@.dom().contains(token_identifier@)
                    &&& final(self).tokens@ == old(self).tokens@.insert(
                        token_identifier@,
                        minted_view(token_identifier@, to, caller, time, props_view(properties@)),
                    )
                    &&& txid == old(self).tx_history@.len()
                    &&& final(self).tx_history@ == old(self).tx_history@.push(TxEventView {
                        caller,
                        details: props_view(properties@),
                        operation: "mint"@,
                        time,
                    })
                },
                Err(e) => {
                    &&& *final(self) == *old(self)
                    &&& match e {
                        NftError::ExistedNFT => old(self).config.supported_interfaces@.contains(
                            SupportedInterface::Mint,
                        ) && old(self).tokens@.dom().contains(token_identifier@),
                        NftError::Other(msg) => !old(self).config.supported_interfaces@.contains(
                            SupportedInterface::Mint,
                        ) && msg@ == "Not implemented"@,
                        _ => false,
                    }
                },
            },
    {
        if self.config.has_interface(SupportedInterface::Mint) {
            self.tokens.mint(&mut self.tx_history, caller, time, to, token_identifier, properties)
        } else {
            Err(NftError::Other("Not implemented".to_owned()))
        }
    }

    /// Burns a token: its owner becomes `None` and it can no longer be used,
    /// but it still counts towards the total supply. Caller must be the
    /// token's owner or operator; needs the burn capability.
    pub fn dip721_burn(&mut self, caller: Principal, time: u64, token_identifier: &TokenIdentifier) -> (r: Result<
        u64,
        NftError,
    >)
        requires
            old(self).wf(),
        ensures
            final(self).wf(),
            final(self).config == old(self).config,
            match r {
                Ok(txid) => {
                    &&& old(self).tokens@.dom().contains(token_identifier@)
                    &&& (old(self).tokens@[token_identifier@].owner == Some(caller)
                        || old(self).tokens@[token_identifier@].operator == Some(caller))
                    &&& old(self).config.supported_interfaces@.contains(SupportedInterface::Burn)
                    &&& !old(self).tokens@[token_identifier@].is_burned
                    &&& final(self).tokens@ == old(self).tokens@.insert(
                        token_identifier@,
                        burned_view(old(self).tokens@[token_identifier@], caller, time),
                    )
                    &&& txid == old(self).tx_history@.len()
                    &&& final(self).tx_history@ == old(self).tx_history@.push(TxEventView {
                        caller,
                        details: old(self).tokens@[token_identifier@].properties,
                        operation: "burn"@,
                        time,
                    })
                },
                Err(e) => {
                    &&& *final(self) == *old(self)
                    &&& match e {
                        NftError::TokenNotFound => !old(self).tokens@.dom().contains(
                            token_identifier@,
                        ),
                        NftError::UnauthorizedOwner => old(self).tokens@.dom().contains(
                            token_identifier@,
                        ) && old(self).tokens@[token_identifier@].owner is None,
                        NftError::UnauthorizedOperator => {
                            &&& old(self).tokens@.dom().contains(token_identifier@)
                            &&& old(self).tokens@[token_identifier@].owner is Some
                            &&& old(self).tokens@[token_identifier@].owner != Some(caller)
                            &&& old(self).tokens@[token_identifier@].operator != Some(caller)
                        },
                        NftError::ExistedNFT => {
                            &&& old(self).tokens@.dom().contains(token_identifier@)
                            &&& old(self).tokens@[token_identifier@].is_burned
                        },
                        NftError::Other(msg) => {
                            &&& old(self).tokens@.dom().contains(token_identifier@)
                            &&& (old(self).tokens@[token_identifier@].owner == Some(caller)
                                || old(self).tokens@[token_identifier@].operator == Some(caller))
                            &&& !old(self).config.supported_interfaces@.contains(
                                SupportedInterface::Burn,
                            )
                            &&& msg@ == "Not implemented"@
                        },
                        _ => false,
                    }
                },
            },
    {
        match Inspect::inspect_is_owner_or_operator(&self.tokens, caller, token_identifier) {
            Ok(_) => {},
            Err(e) => {
                return Err(e);
            },
        }
        if self.config.has_interface(SupportedInterface::Burn) {
            self.tokens.burn(&mut self.tx_history, caller, time, token_identifier)
        } else {
            Err(NftError::Other("Not implemented".to_owned()))
        }
    }

    /// Sets one property of a token: the first property with that name is
    /// updated, otherwise one is appended. Caller must be a custodian; no
    /// transaction is logged.
    pub fn set_token_property(
        &mut self,
        caller: Principal,
        token_identifier: &TokenIdentifier,
        key: String,
        value: GenericValue,
    ) -> (r: Result<(), NftError>)
        requires
            old(self).wf(),
            old(self).config.custodians@.contains(caller),
        ensures
            final(self).wf(),
            final(self).config == old(self).config,
            final(self).tx_history == old(self).tx_history,
            match r {
                Ok(()) => {
                    &&& old(self).tokens@.dom().contains(token_identifier@)
                    &&& final(self).tokens@ == old(self).tokens@.insert(
                        token_identifier@,
                        prop_set_view(old(self).tokens@[token_identifier@], key@, value),
                    )
                },
                Err(e) => {
                    &&& *final(self) == *old(self)
                    &&& e == NftError::TokenNotFound
                    &&& !old(self).tokens@.dom().contains(token_identifier@)
                },
            },
    {
        self.tokens.set_token_property(token_identifier, key, value)
    }

    /// Returns the transaction with a given id, when the transaction history
    /// capability is declared; `TxNotFound` for an unassigned id.
    pub fn dip721_transaction(&self, tx_id: u64) -> (r: Result<TxEvent, NftError>)
        ensures
            match r {
                Ok(e) => {
                    &&& self.config.supported_interfaces@.contains(
                        SupportedInterface::TransactionHistory,
                    )
                    &&& tx_id < self.tx_history@.len()
                    &&& e@ == self.tx_history@[tx_id as int]
                },
                Err(NftError::TxNotFound) => {
                    &&& self.config.supported_interfaces@.contains(
                        SupportedInterface::TransactionHistory,
                    )
                    &&& tx_id >= self.tx_history@.len()
                },
                Err(NftError::Other(msg)) => !self.config.supported_interfaces@.contains(
                    SupportedInterface::TransactionHistory,
                ) && msg@ == "Not implemented"@,
                Err(_) => false,
            },
    {
        if self.config.has_interface(SupportedInterface::TransactionHistory) {
            match self.tx_history.get_transaction_by_id(tx_id) {
                Some(ev) => Ok(ev),
                None => Err(NftError::TxNotFound),
            }
        } else {
            Err(NftError::Other("Not implemented".to_owned()))
        }
    }
}

} // verus!
