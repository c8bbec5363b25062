//! The append-only transaction history: a dense, gapless, monotonically
//! numbered log of every mutating operation. The id of an entry is the log
//! length at the moment it is appended; entries are never changed or removed.

use vstd::prelude::*;

verus! {

use crate::types::{props_view, TokenMetadata, TxEvent, TxEventView, clone_properties};
use candid::Principal;

/// The view of the event a mutation appends: the acting principal, the given
/// operation tag, the token's property snapshot, and the timestamp.
pub open spec fn event_view(
    caller: Principal,
    time: u64,
    token: TokenMetadata,
    operation: Seq<char>,
) -> TxEventView {
    TxEventView { caller, details: token@.properties, operation, time }
}

/// The transaction log.
pub struct TxHistory {
    events: Vec<TxEvent>,
}

impl View for TxHistory {
    type V = Seq<TxEventView>;

    closed spec fn view(&self) -> Seq<TxEventView> {
        self.events@.map_values(|e: TxEvent| e@)
    }
}

impl TxHistory {
    /// An empty log.
    pub fn new() -> (r: TxHistory)
        ensures
            r@ == Seq::<TxEventView>::empty(),
    {
        let r = TxHistory { events: Vec::new() };
        proof {
            assert(r@ =~= Seq::<TxEventView>::empty());
        }
        r
    }

    /// Get transaction by id: the entry at that sequence number, if one has
    /// been assigned yet.
    pub fn get_transaction_by_id(&self, tx_id: u64) -> (r: Option<TxEvent>)
        ensures
            match r {
                Some(e) => tx_id < self@.len() && e@ == self@[tx_id as int],
                None => tx_id >= self@.len(),
            },
    {
        if tx_id < self.events.len() as u64 {
            Some(self.events[tx_id as usize].clone())
        } else {
            None
        }
    }

    /// Get transaction count.
    pub fn count(&self) -> (r: u64)
        ensures
            r == self@.len(),
    {
        self.events.len() as u64
    }

    /// Appends one event; the assigned id is the log length before the append.
    fn register(&mut self, caller: Principal, time: u64, token: &TokenMetadata, operation: String) -> (id: u64)
        ensures
            id == old(self)@.len(),
            final(self)@ == old(self)@.push(event_view(caller, time, *token, operation@)),
    {
        let id = self.events.len() as u64;
        let event = TxEvent {
            caller,
            details: clone_properties(&token.properties),
            operation,
            time,
        };
        self.events.push(event);
        proof {
            assert(self@ =~= old(self)@.push(event_view(caller, time, *token, operation@)));
        }
        id
    }

    /// Register a token mint.
    pub fn register_token_mint(&mut self, caller: Principal, time: u64, token: &TokenMetadata) -> (id: u64)
        ensures
            id == old(self)@.len(),
            final(self)@ == old(self)@.push(event_view(caller, time, *token, "mint"@)),
    {
        self.register(caller, time, token, "mint".to_owned())
    }

    /// Register a token burn.
    pub fn register_token_burn(&mut self, caller: Principal, time: u64, token: &TokenMetadata) -> (id: u64)
        ensures
            id == old(self)@.len(),
            final(self)@ == old(self)@.push(event_view(caller, time, *token, "burn"@)),
    {
        self.register(caller, time, token, "burn".to_owned())
    }

    /// Register a transfer.
    pub fn register_transfer(&mut self, caller: Principal, time: u64, token: &TokenMetadata) -> (id: u64)
        ensures
            id == old(self)@.len(),
            final(self)@ == old(self)@.push(event_view(caller, time, *token, "transfer"@)),
    {
        self.register(caller, time, token, "transfer".to_owned())
    }

    /// Register an approval or revocation.
    pub fn register_approve(&mut self, caller: Principal, time: u64, token: &TokenMetadata) -> (id: u64)
        ensures
            id == old(self)@.len(),
            final(self)@ == old(self)@.push(event_view(caller, time, *token, "approve"@)),
    {
        self.register(caller, time, token, "approve".to_owned())
    }
}

} // verus!
