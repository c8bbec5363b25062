//! Ledger-wide laws, stated over the same spec functions the operations'
//! contracts use, so that what each mutation promises composes into the
//! invariants the ledger must never violate.

use vstd::prelude::*;

verus! {

use crate::tokens::{
    approved_view, burned_view, minted_view, owned_ids, prop_set_view, revoked_view,
    transferred_view, lemma_owned_ids_iff, distinct_ids, map_of,
};
use crate::types::{TokenView, TxEventView};
use candid::Principal;
use dip721_rs::GenericValue;

/// A record is ownerless exactly when it is burned, over the whole store.
pub open spec fn owner_absent_iff_burned(m: Map<nat, TokenView>) -> bool {
    forall|k: nat| #[trigger] m.dom().contains(k) ==> (m[k].owner is None <==> m[k].is_burned)
}

/// A minted id is permanent: after the mint it is in the store, and it stays
/// there under every later single-record change (burning included), so a
/// second mint of the same id fails, since `mint` succeeds exactly on absent
/// ids.
pub proof fn lemma_mint_exactly_once(
    m: Map<nat, TokenView>,
    id: nat,
    to: Principal,
    caller: Principal,
    time: u64,
    properties: Seq<(Seq<char>, GenericValue)>,
    later: TokenView,
)
    requires
        !m.dom().contains(id),
    ensures
        m.insert(id, minted_view(id, to, caller, time, properties)).dom().contains(id),
        m.insert(id, minted_view(id, to, caller, time, properties)).insert(id, later)
            .dom().contains(id),
{
}

/// After a transfer, the token's owner is the destination and its operator
/// is cleared; `transfer` leaves the store at exactly this record.
pub proof fn lemma_transfer_reassigns_and_clears(
    m: Map<nat, TokenView>,
    id: nat,
    to: Principal,
    caller: Principal,
    time: u64,
)
    requires
        m.dom().contains(id),
    ensures
        m.insert(id, transferred_view(m[id], to, caller, time))[id].owner == Some(to),
        m.insert(id, transferred_view(m[id], to, caller, time))[id].operator is None,
{
}

/// After a burn the token is terminal: ownerless, operator cleared, marked
/// burned — and its id is still in the store, so owner scans exclude it only
/// by its burn state, never by deletion.
pub proof fn lemma_burn_is_terminal(
    m: Map<nat, TokenView>,
    id: nat,
    caller: Principal,
    time: u64,
)
    requires
        m.dom().contains(id),
    ensures
        m.insert(id, burned_view(m[id], caller, time))[id].owner is None,
        m.insert(id, burned_view(m[id], caller, time))[id].is_burned,
        m.insert(id, burned_view(m[id], caller, time)).dom().contains(id),
{
}

/// A burned id never appears among any owner's tokens: `balance_of` and
/// `owner_token_identifiers` cannot include it.
pub proof fn lemma_burned_not_owned(s: Seq<TokenView>, p: Principal, id: nat)
    requires
        distinct_ids(s),
        map_of(s).dom().contains(id),
        map_of(s)[id].is_burned,
    ensures
        !owned_ids(s, p).contains(id),
{
    lemma_owned_ids_iff(s, p, id);
}

/// The total supply never decreases: every mutation either leaves the store
/// unchanged or inserts one record, and an insert never shrinks a finite map.
pub proof fn lemma_total_supply_monotone(m: Map<nat, TokenView>, id: nat, v: TokenView)
    requires
        m.dom().finite(),
    ensures
        m.insert(id, v).len() >= m.len(),
        m.dom().contains(id) ==> m.insert(id, v).len() == m.len(),
        !m.dom().contains(id) ==> m.insert(id, v).len() == m.len() + 1,
{
    let m1 = m.insert(id, v);
    if m.dom().contains(id) {
        assert(m1.dom() =~= m.dom());
    } else {
        assert(m1.dom() =~= m.dom().insert(id));
    }
}

/// Approval always succeeds on an existing token and overwrites whatever
/// operator was set before: the record after `approve` names the new operator
/// whatever the old record held.
pub proof fn lemma_approve_overwrites(
    m: Map<nat, TokenView>,
    id: nat,
    operator: Principal,
    caller: Principal,
    time: u64,
)
    requires
        m.dom().contains(id),
    ensures
        m.insert(id, approved_view(m[id], operator, caller, time))[id].operator == Some(operator),
{
}

/// Revoking an operator that is not the current one changes no record at
/// all: the store after the revocation is the store before it, even though
/// the operation still assigns and returns a fresh transaction id.
pub proof fn lemma_revoke_mismatch_is_noop(
    m: Map<nat, TokenView>,
    id: nat,
    operator: Principal,
    log: Seq<TxEventView>,
    event: TxEventView,
)
    requires
        m.dom().contains(id),
        m[id].operator != Some(operator),
    ensures
        m.insert(id, revoked_view(m[id], operator)) == m,
        log.push(event).len() == log.len() + 1,
{
    assert(m.insert(id, revoked_view(m[id], operator)) =~= m);
}

/// Transaction ids are dense and strictly increasing from zero: a mutation
/// that appends to a log of length n is assigned id n, the log then has
/// length n + 1, the new event sits at index n, and all earlier entries keep
/// their ids.
pub proof fn lemma_tx_ids_dense(log: Seq<TxEventView>, event: TxEventView)
    ensures
        log.push(event).len() == log.len() + 1,
        log.push(event)[log.len() as int] == event,
        forall|j: int| 0 <= j < log.len() ==> log.push(event)[j] == log[j],
{
}

/// "Ownerless exactly when burned" holds of the empty store and is kept by
/// every transition the store performs: minting a fresh id, transferring or
/// burning a live token, and approving, revoking or rewriting the
/// properties of any token. No reachable store can hold a record that is
/// burned but owned, or live but ownerless.
pub proof fn lemma_owner_absent_iff_burned_preserved(
    m: Map<nat, TokenView>,
    id: nat,
    to: Principal,
    operator: Principal,
    caller: Principal,
    time: u64,
    properties: Seq<(Seq<char>, GenericValue)>,
    key: Seq<char>,
    value: GenericValue,
)
    requires
        owner_absent_iff_burned(m),
    ensures
        owner_absent_iff_burned(Map::<nat, TokenView>::empty()),
        !m.dom().contains(id) ==> owner_absent_iff_burned(
            m.insert(id, minted_view(id, to, caller, time, properties)),
        ),
        m.dom().contains(id) && !m[id].is_burned ==> owner_absent_iff_burned(
            m.insert(id, transferred_view(m[id], to, caller, time)),
        ),
        m.dom().contains(id) ==> owner_absent_iff_burned(
            m.insert(id, burned_view(m[id], caller, time)),
        ),
        m.dom().contains(id) ==> owner_absent_iff_burned(
            m.insert(id, approved_view(m[id], operator, caller, time)),
        ),
        m.dom().contains(id) ==> owner_absent_iff_burned(
            m.insert(id, revoked_view(m[id], operator)),
        ),
        m.dom().contains(id) ==> owner_absent_iff_burned(
            m.insert(id, prop_set_view(m[id], key, value)),
        ),
{
}

/// Burned or not, every record in the store counts towards the supply, so
/// the supply equals the number of ids ever minted.
pub proof fn lemma_supply_counts_burned(m: Map<nat, TokenView>, id: nat, caller: Principal, time: u64)
    requires
        m.dom().finite(),
        m.dom().contains(id),
    ensures
        m.insert(id, burned_view(m[id], caller, time)).len() == m.len(),
{
    lemma_total_supply_monotone(m, id, burned_view(m[id], caller, time));
}

} // verus!
