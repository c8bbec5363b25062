//! The token store: the map from token identifier to token record, with
//! owner- and operator-indexed views derived by full scan, and the atomic
//! single-record mutations (mint, transfer, burn, approve, revoke) that
//! each append one entry to the transaction log.

use vstd::prelude::*;

verus! {

use vstd::pervasive::VecAdditionalExecFns;
use crate::token_id::TokenIdentifier;
use crate::types::{props_view, NftError, TokenMetadata, TokenView, TxEventView};
use crate::trusted::{principal_copy, principal_eq};
use crate::tx_history::TxHistory;
use candid::Principal;
use dip721_rs::GenericValue;

/// The record a fresh mint creates.
pub open spec fn minted_view(
    id: nat,
    to: Principal,
    caller: Principal,
    time: u64,
    properties: Seq<(Seq<char>, GenericValue)>,
) -> TokenView {
    TokenView {
        id,
        owner: Some(to),
        operator: None,
        is_burned: false,
        minted_at: time,
        minted_by: caller,
        transferred_at: None,
        transferred_by: None,
        approved_at: None,
        approved_by: None,
        burned_at: None,
        burned_by: None,
        properties,
    }
}

/// A record after a successful transfer: new owner, operator cleared,
/// transfer audit fields stamped.
pub open spec fn transferred_view(t: TokenView, to: Principal, caller: Principal, time: u64) -> TokenView {
    TokenView {
        owner: Some(to),
        operator: None,
        transferred_at: Some(time),
        transferred_by: Some(caller),
        ..t
    }
}

/// A record after a successful burn: terminal, ownerless, operator cleared,
/// burn audit fields stamped.
pub open spec fn burned_view(t: TokenView, caller: Principal, time: u64) -> TokenView {
    TokenView {
        owner: None,
        operator: None,
        is_burned: true,
        burned_at: Some(time),
        burned_by: Some(caller),
        ..t
    }
}

/// A record after an approval: the operator is set unconditionally.
pub open spec fn approved_view(t: TokenView, operator: Principal, caller: Principal, time: u64) -> TokenView {
    TokenView {
        operator: Some(operator),
        approved_at: Some(time),
        approved_by: Some(caller),
        ..t
    }
}

/// A record after a revocation: cleared only when the named operator is the
/// current one; otherwise unchanged.
pub open spec fn revoked_view(t: TokenView, operator: Principal) -> TokenView {
    if t.operator == Some(operator) {
        TokenView { operator: None, approved_at: None, approved_by: None, ..t }
    } else {
        t
    }
}

/// Holds of the records an owner query returns: owned by `p` and not burned.
pub open spec fn owner_pred(p: Principal) -> spec_fn(TokenView) -> bool {
    |t: TokenView| t.owner == Some(p) && !t.is_burned
}

/// Holds of the records an operator query returns: operator `p`, any burn
/// state.
pub open spec fn operator_pred(p: Principal) -> spec_fn(TokenView) -> bool {
    |t: TokenView| t.operator == Some(p)
}

/// The id of a record.
pub open spec fn entry_id() -> spec_fn(TokenView) -> nat {
    |t: TokenView| t.id
}

/// The value of an identifier.
pub open spec fn id_value() -> spec_fn(TokenIdentifier) -> nat {
    |t: TokenIdentifier| t@
}

/// The values of a vector of identifiers.
pub open spec fn ids_of(r: Seq<TokenIdentifier>) -> Seq<nat> {
    r.map_values(id_value())
}

/// The ids owned by `p`, in stored (ascending) order.
pub open spec fn owned_ids(s: Seq<TokenView>, p: Principal) -> Seq<nat> {
    s.filter(owner_pred(p)).map_values(entry_id())
}

/// The ids operated by `p`, in stored (ascending) order.
pub open spec fn operated_ids(s: Seq<TokenView>, p: Principal) -> Seq<nat> {
    s.filter(operator_pred(p)).map_values(entry_id())
}

/// The owner of a record, if any.
pub open spec fn entry_owner() -> spec_fn(TokenView) -> Option<Principal> {
    |t: TokenView| t.owner
}

/// The distinct principals that own at least one record of the map.
pub open spec fn holder_set(m: Map<nat, TokenView>) -> Set<Principal> {
    Set::new(|p: Principal| exists|k: nat| #[trigger] m.dom().contains(k) && m[k].owner == Some(p))
}

/// A property list after "update first name match, else append".
pub open spec fn upsert(
    ps: Seq<(Seq<char>, GenericValue)>,
    k: Seq<char>,
    v: GenericValue,
) -> Seq<(Seq<char>, GenericValue)>
    decreases ps.len(),
{
    if ps.len() == 0 {
        seq![(k, v)]
    } else if ps[0].0 == k {
        ps.update(0, (k, v))
    } else {
        seq![ps[0]] + upsert(ps.skip(1), k, v)
    }
}

/// A record after a property write.
pub open spec fn prop_set_view(t: TokenView, k: Seq<char>, v: GenericValue) -> TokenView {
    TokenView { properties: upsert(t.properties, k, v), ..t }
}

/// A record after `set_approval_for_all`: approved or revoked when the
/// caller owns it, untouched otherwise.
pub open spec fn apply_approval(
    t: TokenView,
    caller: Principal,
    time: u64,
    operator: Principal,
    approved: bool,
) -> TokenView {
    if t.owner == Some(caller) && !t.is_burned {
        if approved {
            approved_view(t, operator, caller, time)
        } else {
            revoked_view(t, operator)
        }
    } else {
        t
    }
}

/// Record sequences sorted strictly ascending by token id value.
pub open spec fn sorted_by_id(s: Seq<TokenView>) -> bool {
    forall|i: int, j: int| 0 <= i < j < s.len() ==> s[i].id < s[j].id
}

/// No two records share an id.
pub open spec fn distinct_ids(s: Seq<TokenView>) -> bool {
    forall|i: int, j: int| 0 <= i < j < s.len() ==> s[i].id != s[j].id
}

/// The finite map denoted by a sequence of token records.
pub open spec fn map_of(s: Seq<TokenView>) -> Map<nat, TokenView>
    decreases s.len(),
{
    if s.len() == 0 {
        Map::empty()
    } else {
        map_of(s.drop_last()).insert(s.last().id, s.last())
    }
}

proof fn lemma_map_of_contains(s: Seq<TokenView>, k: nat)
    ensures
        map_of(s).dom().contains(k) <==> exists|i: int| 0 <= i < s.len() && s[i].id == k,
    decreases s.len(),
{
    if s.len() > 0 {
        let d = s.drop_last();
        lemma_map_of_contains(d, k);
        if s.last().id == k {
            assert(s[s.len() - 1].id == k);
        } else {
            if map_of(s).dom().contains(k) {
                let i = choose|i: int| 0 <= i < d.len() && d[i].id == k;
                assert(s[i].id == k);
            }
            if exists|i: int| 0 <= i < s.len() && s[i].id == k {
                let i = choose|i: int| 0 <= i < s.len() && s[i].id == k;
                assert(d[i].id == k);
            }
        }
    }
}

proof fn lemma_map_of_index(s: Seq<TokenView>, i: int)
    requires
        distinct_ids(s),
        0 <= i < s.len(),
    ensures
        map_of(s).dom().contains(s[i].id),
        map_of(s)[s[i].id] == s[i],
    decreases s.len(),
{
    let d = s.drop_last();
    if i == s.len() - 1 {
    } else {
        assert(distinct_ids(d));
        assert(d[i] == s[i]);
        lemma_map_of_index(d, i);
        assert(s[i].id != s.last().id);
    }
}

proof fn lemma_map_of_len(s: Seq<TokenView>)
    requires
        distinct_ids(s),
    ensures
        map_of(s).dom().finite(),
        map_of(s).len() == s.len(),
    decreases s.len(),
{
    if s.len() > 0 {
        let d = s.drop_last();
        assert(distinct_ids(d));
        lemma_map_of_len(d);
        lemma_map_of_contains(d, s.last().id);
        assert(forall|i: int| 0 <= i < d.len() ==> d[i] == s[i]);
        assert(!map_of(d).dom().contains(s.last().id));
    }
}

proof fn lemma_map_of_update(s: Seq<TokenView>, i: int, v: TokenView)
    requires
        distinct_ids(s),
        0 <= i < s.len(),
        v.id == s[i].id,
    ensures
        map_of(s.update(i, v)) == map_of(s).insert(v.id, v),
    decreases s.len(),
{
    let d = s.drop_last();
    if i == s.len() - 1 {
        assert(s.update(i, v).drop_last() =~= d);
        assert(s.update(i, v).last() == v);
        assert(map_of(s.update(i, v)) =~= map_of(s).insert(v.id, v));
    } else {
        assert(distinct_ids(d));
        assert(d[i] == s[i]);
        lemma_map_of_update(d, i, v);
        assert(s.update(i, v).drop_last() =~= d.update(i, v));
        assert(s.update(i, v).last() == s.last());
        assert(v.id != s.last().id);
        assert(map_of(s.update(i, v)) =~= map_of(s).insert(v.id, v));
    }
}

proof fn lemma_map_of_insert(s: Seq<TokenView>, i: int, v: TokenView)
    requires
        0 <= i <= s.len(),
        forall|j: int| 0 <= j < s.len() ==> s[j].id != v.id,
    ensures
        map_of(s.insert(i, v)) == map_of(s).insert(v.id, v),
    decreases s.len(),
{
    if i == s.len() {
        assert(s.insert(i, v).drop_last() =~= s);
        assert(s.insert(i, v).last() == v);
    } else {
        let d = s.drop_last();
        assert(forall|j: int| 0 <= j < d.len() ==> d[j] == s[j]);
        lemma_map_of_insert(d, i, v);
        assert(s.insert(i, v).drop_last() =~= d.insert(i, v));
        assert(s.insert(i, v).last() == s.last());
        assert(s[s.len() - 1].id != v.id);
        assert(map_of(s.insert(i, v)) =~= map_of(s).insert(v.id, v));
    }
}

/// The token store.
pub struct TokensStorage {
    tokens: Vec<TokenMetadata>,
}

impl View for TokensStorage {
    type V = Map<nat, TokenView>;

    open spec fn view(&self) -> Map<nat, TokenView> {
        map_of(self.entries())
    }
}

impl TokensStorage {
    /// The stored records in ascending id order.
    pub closed spec fn entries(&self) -> Seq<TokenView> {
        self.tokens@.map_values(|t: TokenMetadata| t@)
    }

    /// Well-formed store: records sorted strictly ascending by id.
    pub open spec fn wf(&self) -> bool {
        sorted_by_id(self.entries())
    }

    /// An empty store.
    pub fn new() -> (r: TokensStorage)
        ensures
            r.wf(),
            r@ == Map::<nat, TokenView>::empty(),
            r.entries() == Seq::<TokenView>::empty(),
    {
        let r = TokensStorage { tokens: Vec::new() };
        proof {
            assert(r.entries() =~= Seq::<TokenView>::empty());
        }
        r
    }

    /// First position whose record id is at least the given id.
    fn position_of(&self, id: &TokenIdentifier) -> (r: usize)
        requires
            self.wf(),
        ensures
            r <= self.entries().len(),
            forall|j: int| 0 <= j < r ==> self.entries()[j].id < id@,
            r < self.entries().len() ==> self.entries()[r as int].id >= id@,
    {
        let n = self.tokens.len();
        let mut i: usize = 0;
        while i < n
            invariant
                n == self.tokens@.len(),
                0 <= i <= n,
                forall|j: int| 0 <= j < i ==> self.entries()[j].id < id@,
            decreases n - i,
        {
            if !self.tokens[i].token_identifier.lt(id) {
                return i;
            }
            i = i + 1;
        }
        n
    }

    /// Index of the record with the given id, if the id is in the store.
    fn index_of(&self, id: &TokenIdentifier) -> (r: Option<usize>)
        requires
            self.wf(),
        ensures
            match r {
                Some(i) => {
                    &&& i < self.entries().len()
                    &&& self.entries()[i as int].id == id@
                    &&& self@.dom().contains(id@)
                    &&& self@[id@] == self.entries()[i as int]
                },
                None => !self@.dom().contains(id@),
            },
    {
        let pos = self.position_of(id);
        if pos < self.tokens.len() && self.tokens[pos].token_identifier.eq_value(id) {
            proof {
                lemma_map_of_index(self.entries(), pos as int);
            }
            Some(pos)
        } else {
            proof {
                lemma_map_of_contains(self.entries(), id@);
                assert forall|j: int| 0 <= j < self.entries().len() implies self.entries()[j].id != id@ by {
                    if j > pos {
                        assert(self.entries()[pos as int].id < self.entries()[j].id);
                    }
                }
            }
            None
        }
    }

    /// Get token metadata; `TokenNotFound` exactly when the id was never
    /// minted.
    pub fn get_token(&self, id: &TokenIdentifier) -> (r: Result<TokenMetadata, NftError>)
        requires
            self.wf(),
        ensures
            match r {
                Ok(t) => self@.dom().contains(id@) && t@ == self@[id@],
                Err(e) => !self@.dom().contains(id@) && e == NftError::TokenNotFound,
            },
    {
        match self.index_of(id) {
            Some(i) => Ok(self.tokens[i].clone()),
            None => Err(NftError::TokenNotFound),
        }
    }

    /// Returns the total supply of tokens: all records count, burned ones
    /// included.
    pub fn total_supply(&self) -> (r: u64)
        requires
            self.wf(),
        ensures
            r == self@.len(),
    {
        proof {
            lemma_map_of_len(self.entries());
        }
        self.tokens.len() as u64
    }

    /// Get tokens owned by a certain principal: the identifiers of the
    /// records owned by `owner` and not burned, in ascending id order.
    pub fn tokens_by_owner(&self, owner: Principal) -> (r: Vec<TokenIdentifier>)
        requires
            self.wf(),
        ensures
            ids_of(r@) == owned_ids(self.entries(), owner),
    {
        let n = self.tokens.len();
        let mut r: Vec<TokenIdentifier> = Vec::new();
        let mut i: usize = 0;
        proof {
            reveal(Seq::filter);
            assert(self.entries().take(0) =~= Seq::<TokenView>::empty());
            assert(ids_of(r@) =~= owned_ids(self.entries().take(0), owner));
        }
        while i < n
            invariant
                n == self.tokens@.len(),
                0 <= i <= n,
                ids_of(r@) =~= owned_ids(self.entries().take(i as int), owner),
            decreases n - i,
        {
            let t = &self.tokens[i];
            let owned = match &t.owner {
                Some(q) => principal_eq(q, &owner),
                None => false,
            };
            if owned && !t.is_burned {
                let ghost r0 = r@;
                let x = t.token_identifier.clone();
                let ghost xv = x;
                r.push(x);
                proof {
                    lemma_scan_push(r0, xv, self.entries(), i as int, owner_pred(owner));
                }
            } else {
                proof {
                    lemma_scan_skip(self.entries(), i as int, owner_pred(owner));
                }
            }
            i = i + 1;
        }
        proof {
            assert(self.entries().take(n as int) =~= self.entries());
        }
        r
    }

    /// Get tokens with operator set to a certain principal, regardless of
    /// burn state, in ascending id order.
    pub fn tokens_by_operator(&self, operator: Principal) -> (r: Vec<TokenIdentifier>)
        requires
            self.wf(),
        ensures
            ids_of(r@) == operated_ids(self.entries(), operator),
    {
        let n = self.tokens.len();
        let mut r: Vec<TokenIdentifier> = Vec::new();
        let mut i: usize = 0;
        proof {
            reveal(Seq::filter);
            assert(self.entries().take(0) =~= Seq::<TokenView>::empty());
            assert(ids_of(r@) =~= operated_ids(self.entries().take(0), operator));
        }
        while i < n
            invariant
                n == self.tokens@.len(),
                0 <= i <= n,
                ids_of(r@) =~= operated_ids(self.entries().take(i as int), operator),
            decreases n - i,
        {
            let t = &self.tokens[i];
            let operated = match &t.operator {
                Some(q) => principal_eq(q, &operator),
                None => false,
            };
            if operated {
                let ghost r0 = r@;
                let x = t.token_identifier.clone();
                let ghost xv = x;
                r.push(x);
                proof {
                    lemma_scan_push(r0, xv, self.entries(), i as int, operator_pred(operator));
                }
            } else {
                proof {
                    lemma_scan_skip(self.entries(), i as int, operator_pred(operator));
                }
            }
            i = i + 1;
        }
        proof {
            assert(self.entries().take(n as int) =~= self.entries());
        }
        r
    }

    /// Get the amount of unique holders of tokens: the number of distinct
    /// principals that own at least one record.
    pub fn total_unique_holders(&self) -> (r: u64)
        requires
            self.wf(),
        ensures
            r == holder_set(self@).len(),
    {
        let n = self.tokens.len();
        let mut seen: Vec<Principal> = Vec::new();
        let mut i: usize = 0;
        proof {
            assert(self.entries().take(0) =~= Seq::<TokenView>::empty());
            assert(seen@.to_set() =~= self.entries().take(0).filter_map(entry_owner()).to_set());
        }
        while i < n
            invariant
                n == self.tokens@.len(),
                0 <= i <= n,
                seen@.no_duplicates(),
                seen@.to_set() =~= self.entries().take(i as int).filter_map(entry_owner()).to_set(),
            decreases n - i,
        {
            let t = &self.tokens[i];
            proof {
                self.entries().lemma_filter_map_take_succ(entry_owner(), i as int);
            }
            match &t.owner {
                Some(p) => {
                    let ghost prev = seen@;
                    if !contains_principal(&seen, p) {
                        seen.push(principal_copy(p));
                    }
                    proof {
                        let es = self.entries();
                        let os = es.take(i as int).filter_map(entry_owner());
                        assert(es.take(i as int + 1).filter_map(entry_owner()) =~= os.push(*p)) by {
                            assert(os + seq![*p] =~= os.push(*p));
                        }
                        os.lemma_push_to_set_commute(*p);
                        if prev.contains(*p) {
                            assert(seen@.to_set() =~= os.to_set().insert(*p));
                        } else {
                            prev.lemma_push_to_set_commute(*p);
                            assert(seen@.to_set() =~= os.to_set().insert(*p));
                        }
                    }
                },
                None => {
                    proof {
                        let es = self.entries();
                        assert(es.take(i as int + 1).filter_map(entry_owner())
                            =~= es.take(i as int).filter_map(entry_owner()));
                    }
                },
            }
            i = i + 1;
        }
        proof {
            assert(self.entries().take(n as int) =~= self.entries());
            seen@.unique_seq_to_set();
            lemma_owners_to_set_is_holder_set(self.entries());
        }
        seen.len() as u64
    }

    /// Set a property on a token: updates the first property with that name,
    /// or appends one. No transaction is logged. Fails with `TokenNotFound`
    /// exactly when the id is unknown, mutating nothing.
    pub fn set_token_property(
        &mut self,
        token_id: &TokenIdentifier,
        key: String,
        value: GenericValue,
    ) -> (r: Result<(), NftError>)
        requires
            old(self).wf(),
        ensures
            final(self).wf(),
            match r {
                Ok(()) => {
                    &&& old(self)@.dom().contains(token_id@)
                    &&& final(self)@ == old(self)@.insert(
                        token_id@,
                        prop_set_view(old(self)@[token_id@], key@, value),
                    )
                },
                Err(e) => {
                    &&& *final(self) == *old(self)
                    &&& e == NftError::TokenNotFound
                    &&& !old(self)@.dom().contains(token_id@)
                },
            },
    {
        let i = match self.index_of(token_id) {
            Some(i) => i,
            None => {
                return Err(NftError::TokenNotFound);
            },
        };
        let mut rec = self.tokens[i].clone();
        let ghost old_props = props_view(rec.properties@);
        let ghost kv = key@;
        let ghost vv = value;
        match find_key(&rec.properties, &key) {
            Some(j) => {
                rec.properties.set(j, (key, value));
                proof {
                    lemma_upsert_at(old_props, kv, vv, j as int);
                    assert(props_view(rec.properties@) =~= old_props.update(j as int, (kv, vv)));
                }
            },
            None => {
                rec.properties.push((key, value));
                proof {
                    lemma_upsert_append(old_props, kv, vv);
                    assert(props_view(rec.properties@) =~= old_props.push((kv, vv)));
                }
            },
        }
        proof {
            assert(rec@ == prop_set_view(old(self)@[token_id@], kv, vv));
            lemma_update_entry(self.entries(), i as int, rec@);
            assert(self.tokens@.update(i as int, rec).map_values(|t: TokenMetadata| t@)
                =~= self.entries().update(i as int, rec@));
        }
        self.tokens.set(i, rec);
        Ok(())
    }

    /// Transfer token to the provided principal: reassigns the owner, clears
    /// the operator, stamps the transfer audit fields and logs one `transfer`
    /// event. Fails with `TokenNotFound` for an unknown id and with
    /// `ExistedNFT` for a burned token, mutating nothing.
    pub fn transfer(
        &mut self,
        tx: &mut TxHistory,
        caller: Principal,
        time: u64,
        token_id: &TokenIdentifier,
        to: Principal,
    ) -> (r: Result<u64, NftError>)
        requires
            old(self).wf(),
        ensures
            final(self).wf(),
            match r {
                Ok(txid) => {
                    &&& old(self)@.dom().contains(token_id@)
                    &&& !old(self)@[token_id@].is_burned
                    &&& final(self)@ == old(self)@.insert(
                        token_id@,
                        transferred_view(old(self)@[token_id@], to, caller, time),
                    )
                    &&& txid == old(tx)@.len()
                    &&& final(tx)@ == old(tx)@.push(TxEventView {
                        caller,
                        details: old(self)@[token_id@].properties,
                        operation: "transfer"@,
                        time,
                    })
                },
                Err(e) => {
                    &&& *final(self) == *old(self)
                    &&& *final(tx) == *old(tx)
                    &&& match e {
                        NftError::TokenNotFound => !old(self)@.dom().contains(token_id@),
                        NftError::ExistedNFT => old(self)@.dom().contains(token_id@)
                            && old(self)@[token_id@].is_burned,
                        _ => false,
                    }
                },
            },
    {
        let i = match self.index_of(token_id) {
            Some(i) => i,
            None => {
                return Err(NftError::TokenNotFound);
            },
        };
        let mut rec = self.tokens[i].clone();
        if rec.is_burned {
            return Err(NftError::ExistedNFT);
        }
        rec.owner = Some(to);
        rec.transferred_at = Some(time);
        rec.transferred_by = Some(caller);
        rec.operator = None;
        let txid = tx.register_transfer(caller, time, &rec);
        proof {
            assert(rec@ == transferred_view(old(self)@[token_id@], to, caller, time));
            lemma_update_entry(self.entries(), i as int, rec@);
            assert(self.tokens@.update(i as int, rec).map_values(|t: TokenMetadata| t@)
                =~= self.entries().update(i as int, rec@));
        }
        self.tokens.set(i, rec);
        Ok(txid)
    }

    /// Burn token: marks it terminal, removes the owner, clears the operator,
    /// stamps the burn audit fields and logs one `burn` event. Fails with
    /// `TokenNotFound` for an unknown id and with `ExistedNFT` for an already
    /// burned token, mutating nothing.
    pub fn burn(
        &mut self,
        tx: &mut TxHistory,
        caller: Principal,
        time: u64,
        token_id: &TokenIdentifier,
    ) -> (r: Result<u64, NftError>)
        requires
            old(self).wf(),
        ensures
            final(self).wf(),
            match r {
                Ok(txid) => {
                    &&& old(self)@.dom().contains(token_id@)
                    &&& !old(self)@[token_id@].is_burned
                    &&& final(self)@ == old(self)@.insert(
                        token_id@,
                        burned_view(old(self)@[token_id@], caller, time),
                    )
                    &&& txid == old(tx)@.len()
                    &&& final(tx)@ == old(tx)@.push(TxEventView {
                        caller,
                        details: old(self)@[token_id@].properties,
                        operation: "burn"@,
                        time,
                    })
                },
                Err(e) => {
                    &&& *final(self) == *old(self)
                    &&& *final(tx) == *old(tx)
                    &&& match e {
                        NftError::TokenNotFound => !old(self)@.dom().contains(token_id@),
                        NftError::ExistedNFT => old(self)@.dom().contains(token_id@)
                            && old(self)@[token_id@].is_burned,
                        _ => false,
                    }
                },
            },
    {
        let i = match self.index_of(token_id) {
            Some(i) => i,
            None => {
                return Err(NftError::TokenNotFound);
            },
        };
        let mut rec = self.tokens[i].clone();
        if rec.is_burned {
            return Err(NftError::ExistedNFT);
        }
        rec.is_burned = true;
        rec.owner = None;
        rec.operator = None;
        rec.burned_at = Some(time);
        rec.burned_by = Some(caller);
        let txid = tx.register_token_burn(caller, time, &rec);
        proof {
            assert(rec@ == burned_view(old(self)@[token_id@], caller, time));
            lemma_update_entry(self.entries(), i as int, rec@);
            assert(self.tokens@.update(i as int, rec).map_values(|t: TokenMetadata| t@)
                =~= self.entries().update(i as int, rec@));
        }
        self.tokens.set(i, rec);
        Ok(txid)
    }

    /// Approve operator for token: sets the operator unconditionally, stamps
    /// the approval audit fields and logs one `approve` event. Fails only
    /// with `TokenNotFound` for an unknown id.
    pub fn approve(
        &mut self,
        tx: &mut TxHistory,
        caller: Principal,
        time: u64,
        operator: Principal,
        token_id: &TokenIdentifier,
    ) -> (r: Result<u64, NftError>)
        requires
            old(self).wf(),
        ensures
            final(self).wf(),
            match r {
                Ok(txid) => {
                    &&& old(self)@.dom().contains(token_id@)
                    &&& final(self)@ == old(self)@.insert(
                        token_id@,
                        approved_view(old(self)@[token_id@], operator, caller, time),
                    )
                    &&& txid == old(tx)@.len()
                    &&& final(tx)@ == old(tx)@.push(TxEventView {
                        caller,
                        details: old(self)@[token_id@].properties,
                        operation: "approve"@,
                        time,
                    })
                },
                Err(e) => {
                    &&& *final(self) == *old(self)
                    &&& *final(tx) == *old(tx)
                    &&& e == NftError::TokenNotFound
                    &&& !old(self)@.dom().contains(token_id@)
                },
            },
    {
        let i = match self.index_of(token_id) {
            Some(i) => i,
            None => {
                return Err(NftError::TokenNotFound);
            },
        };
        let mut rec = self.tokens[i].clone();
        rec.approved_at = Some(time);
        rec.approved_by = Some(caller);
        rec.operator = Some(operator);
        let txid = tx.register_approve(caller, time, &rec);
        proof {
            assert(rec@ == approved_view(old(self)@[token_id@], operator, caller, time));
            lemma_update_entry(self.entries(), i as int, rec@);
            assert(self.tokens@.update(i as int, rec).map_values(|t: TokenMetadata| t@)
                =~= self.entries().update(i as int, rec@));
        }
        self.tokens.set(i, rec);
        Ok(txid)
    }

    /// Remove approval for operator: clears the operator and its audit fields
    /// only when the named operator is the current one; in either case logs
    /// one `approve` event and returns its id. Fails only with
    /// `TokenNotFound` for an unknown id.
    pub fn revoke_approval(
        &mut self,
        tx: &mut TxHistory,
        caller: Principal,
        time: u64,
        operator: Principal,
        token_id: &TokenIdentifier,
    ) -> (r: Result<u64, NftError>)
        requires
            old(self).wf(),
        ensures
            final(self).wf(),
            match r {
                Ok(txid) => {
                    &&& old(self)@.dom().contains(token_id@)
                    &&& final(self)@ == old(self)@.insert(
                        token_id@,
                        revoked_view(old(self)@[token_id@], operator),
                    )
                    &&& txid == old(tx)@.len()
                    &&& final(tx)@ == old(tx)@.push(TxEventView {
                        caller,
                        details: old(self)@[token_id@].properties,
                        operation: "approve"@,
                        time,
                    })
                },
                Err(e) => {
                    &&& *final(self) == *old(self)
                    &&& *final(tx) == *old(tx)
                    &&& e == NftError::TokenNotFound
                    &&& !old(self)@.dom().contains(token_id@)
                },
            },
    {
        let i = match self.index_of(token_id) {
            Some(i) => i,
            None => {
                return Err(NftError::TokenNotFound);
            },
        };
        let mut rec = self.tokens[i].clone();
        let matches_current = match &rec.operator {
            Some(p) => principal_eq(p, &operator),
            None => false,
        };
        if matches_current {
            rec.approved_at = None;
            rec.approved_by = None;
            rec.operator = None;
        }
        let txid = tx.register_approve(caller, time, &rec);
        proof {
            assert(rec@ == revoked_view(old(self)@[token_id@], operator));
            lemma_update_entry(self.entries(), i as int, rec@);
            assert(self.tokens@.update(i as int, rec).map_values(|t: TokenMetadata| t@)
                =~= self.entries().update(i as int, rec@));
        }
        self.tokens.set(i, rec);
        Ok(txid)
    }

    /// Mint a new token: fails with `ExistedNFT` when the id is already
    /// present, burned or not; otherwise creates the record, logs one `mint`
    /// event and returns its id.
    #[verifier::rlimit(50)]
    pub fn mint(
        &mut self,
        tx: &mut TxHistory,
        caller: Principal,
        time: u64,
        to: Principal,
        token_identifier: TokenIdentifier,
        properties: Vec<(String, GenericValue)>,
    ) -> (r: Result<u64, NftError>)
        requires
            old(self).wf(),
        ensures
            final(self).wf(),
            match r {
                Ok(txid) => {
                    &&& !old(self)@.dom().contains(token_identifier@)
                    &&& final(self)@ == old(self)@.insert(
                        token_identifier@,
                        minted_view(token_identifier@, to, caller, time, props_view(properties@)),
                    )
                    &&& txid == old(tx)@.len()
                    &&& final(tx)@ == old(tx)@.push(TxEventView {
                        caller,
                        details: props_view(properties@),
                        operation: "mint"@,
                        time,
                    })
                },
                Err(e) => {
                    &&& *final(self) == *old(self)
                    &&& *final(tx) == *old(tx)
                    &&& e == NftError::ExistedNFT
                    &&& old(self)@.dom().contains(token_identifier@)
                },
            },
    {
        let pos = self.position_of(&token_identifier);
        if pos < self.tokens.len() && self.tokens[pos].token_identifier.eq_value(&token_identifier) {
            proof {
                lemma_map_of_index(self.entries(), pos as int);
            }
            return Err(NftError::ExistedNFT);
        }
        proof {
            lemma_map_of_contains(self.entries(), token_identifier@);
            assert forall|j: int| 0 <= j < self.entries().len()
                implies self.entries()[j].id != token_identifier@ by {
                if j > pos {
                    assert(self.entries()[pos as int].id < self.entries()[j].id);
                }
            }
        }
        let token = TokenMetadata {
            token_identifier,
            owner: Some(to),
            operator: None,
            is_burned: false,
            minted_at: time,
            minted_by: caller,
            transferred_at: None,
            transferred_by: None,
            burned_at: None,
            burned_by: None,
            properties,
            approved_at: None,
            approved_by: None,
        };
        let txid = tx.register_token_mint(caller, time, &token);
        proof {
            let es = self.entries();
            let tv = token@;
            es.insert_ensures(pos as int, tv);
            lemma_map_of_insert(es, pos as int, tv);
            assert(sorted_by_id(es.insert(pos as int, tv))) by {
                assert forall|a: int, b: int|
                    0 <= a < b < es.insert(pos as int, tv).len()
                    implies es.insert(pos as int, tv)[a].id < es.insert(pos as int, tv)[b].id by {
                    if b < pos {
                    } else if b == pos {
                        assert(es.insert(pos as int, tv)[a] == es[a]);
                    } else {
                        assert(es.insert(pos as int, tv)[b] == es[b - 1]);
                        assert(es[pos as int].id != tv.id);
                        if a < pos {
                            assert(es.insert(pos as int, tv)[a] == es[a]);
                        } else if a == pos {
                            assert(es[b - 1].id >= es[pos as int].id);
                        } else {
                            assert(es.insert(pos as int, tv)[a] == es[a - 1]);
                        }
                    }
                }
            }
            assert(self.tokens@.insert(pos as int, token).map_values(|t: TokenMetadata| t@)
                =~= es.insert(pos as int, tv));
        }
        self.tokens.insert(pos, token);
        Ok(txid)
    }
}

/// Whether a principal occurs in a vector of principals.
fn contains_principal(v: &Vec<Principal>, p: &Principal) -> (r: bool)
    ensures
        r == v@.contains(*p),
{
    let n = v.len();
    let mut i: usize = 0;
    while i < n
        invariant
            n == v@.len(),
            0 <= i <= n,
            forall|j: int| 0 <= j < i ==> v@[j] != *p,
        decreases n - i,
    {
        if principal_eq(&v[i], p) {
            proof {
                assert(v@[i as int] == *p);
            }
            return true;
        }
        i = i + 1;
    }
    false
}

/// Index of the first property with the given name, if any.
fn find_key(ps: &Vec<(String, GenericValue)>, key: &String) -> (r: Option<usize>)
    ensures
        match r {
            Some(j) => {
                &&& j < ps@.len()
                &&& ps@[j as int].0@ == key@
                &&& forall|l: int| 0 <= l < j ==> ps@[l].0@ != key@
            },
            None => forall|l: int| 0 <= l < ps@.len() ==> ps@[l].0@ != key@,
        },
{
    let n = ps.len();
    let mut i: usize = 0;
    while i < n
        invariant
            n == ps@.len(),
            0 <= i <= n,
            forall|l: int| 0 <= l < i ==> ps@[l].0@ != key@,
        decreases n - i,
    {
        if ps[i].0 == *key {
            return Some(i);
        }
        i = i + 1;
    }
    None
}

/// The first name match is updated in place.
proof fn lemma_upsert_at(ps: Seq<(Seq<char>, GenericValue)>, k: Seq<char>, v: GenericValue, j: int)
    requires
        0 <= j < ps.len(),
        ps[j].0 == k,
        forall|l: int| 0 <= l < j ==> ps[l].0 != k,
    ensures
        upsert(ps, k, v) == ps.update(j, (k, v)),
    decreases j,
{
    if j == 0 {
    } else {
        let rest = ps.skip(1);
        assert(rest[j - 1] == ps[j]);
        assert(forall|l: int| 0 <= l < j - 1 ==> rest[l] == ps[l + 1]);
        lemma_upsert_at(rest, k, v, j - 1);
        assert(seq![ps[0]] + rest.update(j - 1, (k, v)) =~= ps.update(j, (k, v)));
    }
}

/// With no name match, the property is appended.
proof fn lemma_upsert_append(ps: Seq<(Seq<char>, GenericValue)>, k: Seq<char>, v: GenericValue)
    requires
        forall|l: int| 0 <= l < ps.len() ==> ps[l].0 != k,
    ensures
        upsert(ps, k, v) == ps.push((k, v)),
    decreases ps.len(),
{
    if ps.len() == 0 {
        assert(seq![(k, v)] =~= ps.push((k, v)));
    } else {
        let rest = ps.skip(1);
        assert(forall|l: int| 0 <= l < rest.len() ==> rest[l] == ps[l + 1]);
        lemma_upsert_append(rest, k, v);
        assert(seq![ps[0]] + rest.push((k, v)) =~= ps.push((k, v)));
    }
}

/// A record with an owner puts that owner into the owner sequence.
proof fn lemma_owners_contains(s: Seq<TokenView>, j: int, p: Principal)
    requires
        0 <= j < s.len(),
        s[j].owner == Some(p),
    ensures
        s.filter_map(entry_owner()).contains(p),
    decreases s.len(),
{
    let os = s.filter_map(entry_owner());
    if j == s.len() - 1 {
        assert(os.last() == p);
        assert(os.contains(p)) by {
            assert(os[os.len() - 1] == p);
        }
    } else {
        let rest = s.drop_last();
        assert(rest[j] == s[j]);
        lemma_owners_contains(rest, j, p);
        let ros = rest.filter_map(entry_owner());
        let i = choose|i: int| 0 <= i < ros.len() && ros[i] == p;
        assert(os[i] == p);
    }
}

/// The distinct owners of the stored records are exactly the holders of the
/// denoted map.
proof fn lemma_owners_to_set_is_holder_set(s: Seq<TokenView>)
    requires
        distinct_ids(s),
    ensures
        s.filter_map(entry_owner()).to_set() == holder_set(map_of(s)),
{
    let os = s.filter_map(entry_owner());
    let m = map_of(s);
    assert forall|p: Principal| os.to_set().contains(p) implies holder_set(m).contains(p) by {
        assert(os.contains(p));
        s.lemma_filter_map_contains(entry_owner(), p);
        let t = choose|t: TokenView| #[trigger] s.contains(t) && entry_owner()(t) == Some(p);
        let j = choose|j: int| 0 <= j < s.len() && s[j] == t;
        lemma_map_of_index(s, j);
        assert(m.dom().contains(s[j].id) && m[s[j].id].owner == Some(p));
    }
    assert forall|p: Principal| holder_set(m).contains(p) implies os.to_set().contains(p) by {
        let k = choose|k: nat| #[trigger] m.dom().contains(k) && m[k].owner == Some(p);
        lemma_map_of_contains(s, k);
        let j = choose|j: int| 0 <= j < s.len() && s[j].id == k;
        lemma_map_of_index(s, j);
        lemma_owners_contains(s, j, p);
    }
    assert(os.to_set() =~= holder_set(m));
}

/// An id is among the ids owned by `p` exactly when the map holds it with
/// owner `p` and not burned.
pub proof fn lemma_owned_ids_iff(s: Seq<TokenView>, p: Principal, k: nat)
    requires
        distinct_ids(s),
    ensures
        owned_ids(s, p).contains(k) <==> (map_of(s).dom().contains(k)
            && map_of(s)[k].owner == Some(p) && !map_of(s)[k].is_burned),
{
    broadcast use vstd::seq_lib::group_filter_ensures;

    let f = s.filter(owner_pred(p));
    lemma_map_of_contains(s, k);
    if owned_ids(s, p).contains(k) {
        let i = choose|i: int| 0 <= i < owned_ids(s, p).len() && owned_ids(s, p)[i] == k;
        assert(f[i].id == k);
        assert(owner_pred(p)(f[i]));
        assert(f.contains(f[i]));
        s.lemma_filter_contains_rev(owner_pred(p), f[i]);
        let j = choose|j: int| 0 <= j < s.len() && s[j] == f[i];
        lemma_map_of_index(s, j);
    }
    if map_of(s).dom().contains(k) && map_of(s)[k].owner == Some(p) && !map_of(s)[k].is_burned {
        let j = choose|j: int| 0 <= j < s.len() && s[j].id == k;
        lemma_map_of_index(s, j);
        assert(owner_pred(p)(s[j]));
        assert(f.contains(s[j]));
        let i = choose|i: int| 0 <= i < f.len() && f[i] == s[j];
        assert(owned_ids(s, p)[i] == k);
        assert(owned_ids(s, p).contains(k));
    }
}

/// An id is among the ids operated by `p` exactly when the map holds it with
/// operator `p`.
pub proof fn lemma_operated_ids_iff(s: Seq<TokenView>, p: Principal, k: nat)
    requires
        distinct_ids(s),
    ensures
        operated_ids(s, p).contains(k) <==> (map_of(s).dom().contains(k)
            && map_of(s)[k].operator == Some(p)),
{
    broadcast use vstd::seq_lib::group_filter_ensures;

    let f = s.filter(operator_pred(p));
    lemma_map_of_contains(s, k);
    if operated_ids(s, p).contains(k) {
        let i = choose|i: int| 0 <= i < operated_ids(s, p).len() && operated_ids(s, p)[i] == k;
        assert(f[i].id == k);
        assert(operator_pred(p)(f[i]));
        assert(f.contains(f[i]));
        s.lemma_filter_contains_rev(operator_pred(p), f[i]);
        let j = choose|j: int| 0 <= j < s.len() && s[j] == f[i];
        lemma_map_of_index(s, j);
    }
    if map_of(s).dom().contains(k) && map_of(s)[k].operator == Some(p) {
        let j = choose|j: int| 0 <= j < s.len() && s[j].id == k;
        lemma_map_of_index(s, j);
        assert(operator_pred(p)(s[j]));
        assert(f.contains(s[j]));
        let i = choose|i: int| 0 <= i < f.len() && f[i] == s[j];
        assert(operated_ids(s, p)[i] == k);
        assert(operated_ids(s, p).contains(k));
    }
}

/// Filtering keeps the strict ascending id order of the store.
pub proof fn lemma_filtered_sorted(s: Seq<TokenView>, pred: spec_fn(TokenView) -> bool)
    requires
        sorted_by_id(s),
    ensures
        sorted_by_id(s.filter(pred)),
    decreases s.len(),
{
    reveal(Seq::filter);
    if s.len() > 0 {
        let d = s.drop_last();
        assert(sorted_by_id(d));
        lemma_filtered_sorted(d, pred);
        let fd = d.filter(pred);
        if pred(s.last()) {
            assert forall|a: int| 0 <= a < fd.len() implies fd[a].id < s.last().id by {
                assert(fd.contains(fd[a]));
                d.lemma_filter_contains_rev(pred, fd[a]);
                let j = choose|j: int| 0 <= j < d.len() && d[j] == fd[a];
                assert(s[j] == d[j]);
                assert(s[j].id < s[s.len() - 1].id);
            }
            assert(sorted_by_id(fd.push(s.last())));
        }
    }
}

/// One scan step that takes the record: the collected ids grow by its id.
proof fn lemma_scan_push(
    r0: Seq<TokenIdentifier>,
    x: TokenIdentifier,
    s: Seq<TokenView>,
    i: int,
    pred: spec_fn(TokenView) -> bool,
)
    requires
        0 <= i < s.len(),
        pred(s[i]),
        x@ == s[i].id,
        ids_of(r0) == s.take(i).filter(pred).map_values(entry_id()),
    ensures
        ids_of(r0.push(x)) == s.take(i + 1).filter(pred).map_values(entry_id()),
{
    let f0 = s.take(i).filter(pred);
    let f1 = s.take(i + 1).filter(pred);
    assert(s.take(i + 1) =~= s.take(i).push(s[i]));
    s.take(i).lemma_filter_push(s[i], pred);
    assert(f1 == f0.push(s[i]));
    let r1 = r0.push(x);
    assert(ids_of(r0).len() == r0.len());
    assert(f0.map_values(entry_id()).len() == f0.len());
    assert(f1.map_values(entry_id()).len() == f1.len());
    assert(ids_of(r1).len() == r1.len());
    assert forall|l: int| 0 <= l < r1.len()
        implies ids_of(r1)[l] == f1.map_values(entry_id())[l] by {
        if l < r0.len() {
            assert(ids_of(r1)[l] == r1[l]@);
            assert(r1[l] == r0[l]);
            assert(ids_of(r0)[l] == r0[l]@);
            assert(f1[l] == f0[l]);
            assert(f0.map_values(entry_id())[l] == f0[l].id);
            assert(f1.map_values(entry_id())[l] == f1[l].id);
        } else {
            assert(l == r0.len());
            assert(r1[l] == x);
            assert(f1[l] == s[i]);
            assert(f1.map_values(entry_id())[l] == f1[l].id);
        }
    }
    assert(ids_of(r1) =~= f1.map_values(entry_id()));
}

/// One scan step that skips the record: the collected ids are unchanged.
proof fn lemma_scan_skip(s: Seq<TokenView>, i: int, pred: spec_fn(TokenView) -> bool)
    requires
        0 <= i < s.len(),
        !pred(s[i]),
    ensures
        s.take(i + 1).filter(pred) == s.take(i).filter(pred),
{
    assert(s.take(i + 1) =~= s.take(i).push(s[i]));
    s.take(i).lemma_filter_push(s[i], pred);
}

/// Replacing the record at a sorted position by one with the same id keeps
/// the sequence sorted and updates the denoted map at that id alone.
proof fn lemma_update_entry(s: Seq<TokenView>, i: int, v: TokenView)
    requires
        sorted_by_id(s),
        0 <= i < s.len(),
        v.id == s[i].id,
    ensures
        sorted_by_id(s.update(i, v)),
        map_of(s.update(i, v)) == map_of(s).insert(v.id, v),
{
    assert(distinct_ids(s));
    lemma_map_of_update(s, i, v);
    assert(forall|k: int| 0 <= k < s.len() ==> s.update(i, v)[k].id == s[k].id);
}

} // verus!
