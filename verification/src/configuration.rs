//! Process-wide settings: custodians, the declared capability set, display
//! metadata and the creation/upgrade timestamps. Pure data, no business
//! logic.

use vstd::prelude::*;

verus! {

use crate::trusted::{principal_copy, principal_eq};
use crate::types::SupportedInterface;
use candid::Principal;

/// The ledger's configuration.
pub struct Configuration {
    pub logo: Option<String>,
    pub name: Option<String>,
    pub symbol: Option<String>,
    pub created_at: u64,
    pub upgraded_at: Option<u64>,
    pub custodians: Vec<Principal>,
    pub supported_interfaces: Vec<SupportedInterface>,
}

impl Configuration {
    /// A fresh configuration, created now, with no custodians and no
    /// declared capabilities.
    pub fn new(created_at: u64) -> (r: Configuration)
        ensures
            r.logo == None::<String>,
            r.name == None::<String>,
            r.symbol == None::<String>,
            r.created_at == created_at,
            r.upgraded_at == None::<u64>,
            r.custodians@ == Seq::<Principal>::empty(),
            r.supported_interfaces@ == Seq::<SupportedInterface>::empty(),
    {
        Configuration {
            logo: None,
            name: None,
            symbol: None,
            created_at,
            upgraded_at: None,
            custodians: Vec::new(),
            supported_interfaces: Vec::new(),
        }
    }

    pub fn get_logo(&self) -> (r: Option<String>)
        ensures
            r == self.logo,
    {
        match &self.logo {
            Some(s) => Some(s.clone()),
            None => None,
        }
    }

    pub fn set_logo(&mut self, logo: String)
        ensures
            *final(self) == (Configuration { logo: Some(logo), ..*old(self) }),
    {
        self.logo = Some(logo);
    }

    pub fn get_name(&self) -> (r: Option<String>)
        ensures
            r == self.name,
    {
        match &self.name {
            Some(s) => Some(s.clone()),
            None => None,
        }
    }

    pub fn set_name(&mut self, name: String)
        ensures
            *final(self) == (Configuration { name: Some(name), ..*old(self) }),
    {
        self.name = Some(name);
    }

    pub fn get_symbol(&self) -> (r: Option<String>)
        ensures
            r == self.symbol,
    {
        match &self.symbol {
            Some(s) => Some(s.clone()),
            None => None,
        }
    }

    pub fn set_symbol(&mut self, symbol: String)
        ensures
            *final(self) == (Configuration { symbol: Some(symbol), ..*old(self) }),
    {
        self.symbol = Some(symbol);
    }

    pub fn get_created_at(&self) -> (r: u64)
        ensures
            r == self.created_at,
    {
        self.created_at
    }

    /// The last upgrade timestamp, falling back to the creation timestamp
    /// while no upgrade has happened.
    pub fn get_upgraded_at(&self) -> (r: u64)
        ensures
            r == match self.upgraded_at {
                Some(t) => t,
                None => self.created_at,
            },
    {
        match self.upgraded_at {
            Some(t) => t,
            None => self.created_at,
        }
    }

    pub fn set_upgraded_at(&mut self, time: u64)
        ensures
            *final(self) == (Configuration { upgraded_at: Some(time), ..*old(self) }),
    {
        self.upgraded_at = Some(time);
    }

    /// Replaces the custodian list.
    pub fn set_custodians(&mut self, custodians: Vec<Principal>)
        ensures
            *final(self) == (Configuration { custodians, ..*old(self) }),
    {
        self.custodians = custodians;
    }

    pub fn get_custodians(&self) -> (r: Vec<Principal>)
        ensures
            r@ == self.custodians@,
    {
        copy_principals(&self.custodians)
    }

    /// Membership in the custodian list, by linear scan.
    pub fn is_custodian(&self, caller: Principal) -> (r: bool)
        ensures
            r == self.custodians@.contains(caller),
    {
        let n = self.custodians.len();
        let mut i: usize = 0;
        while i < n
            invariant
                n == self.custodians@.len(),
                0 <= i <= n,
                forall|j: int| 0 <= j < i ==> self.custodians@[j] != caller,
            decreases n - i,
        {
            if principal_eq(&self.custodians[i], &caller) {
                proof {
                    assert(self.custodians@[i as int] == caller);
                }
                return true;
            }
            i = i + 1;
        }
        false
    }

    /// Replaces the declared capability set.
    pub fn set_supported_interfaces(&mut self, supported_interfaces: Vec<SupportedInterface>)
        ensures
            *final(self) == (Configuration { supported_interfaces, ..*old(self) }),
    {
        self.supported_interfaces = supported_interfaces;
    }

    pub fn get_supported_interfaces(&self) -> (r: Vec<SupportedInterface>)
        ensures
            r@ == self.supported_interfaces@,
    {
        let n = self.supported_interfaces.len();
        let mut r: Vec<SupportedInterface> = Vec::new();
        let mut i: usize = 0;
        while i < n
            invariant
                n == self.supported_interfaces@.len(),
                0 <= i <= n,
                r@ =~= self.supported_interfaces@.subrange(0, i as int),
            decreases n - i,
        {
            r.push(self.supported_interfaces[i]);
            i = i + 1;
        }
        proof {
            assert(r@ =~= self.supported_interfaces@);
        }
        r
    }

    /// Whether a capability is declared; undeclared operations are rejected
    /// regardless of authorization.
    pub fn has_interface(&self, interface: SupportedInterface) -> (r: bool)
        ensures
            r == self.supported_interfaces@.contains(interface),
    {
        let n = self.supported_interfaces.len();
        let mut i: usize = 0;
        while i < n
            invariant
                n == self.supported_interfaces@.len(),
                0 <= i <= n,
                forall|j: int| 0 <= j < i ==> self.supported_interfaces@[j] != interface,
            decreases n - i,
        {
            if self.supported_interfaces[i] == interface {
                proof {
                    assert(self.supported_interfaces@[i as int] == interface);
                }
                return true;
            }
            i = i + 1;
        }
        false
    }
}

/// Copies a vector of principals.
fn copy_principals(v: &Vec<Principal>) -> (r: Vec<Principal>)
    ensures
        r@ == v@,
{
    let n = v.len();
    let mut r: Vec<Principal> = Vec::new();
    let mut i: usize = 0;
    while i < n
        invariant
            n == v@.len(),
            0 <= i <= n,
            r@ =~= v@.subrange(0, i as int),
        decreases n - i,
    {
        r.push(principal_copy(&v[i]));
        i = i + 1;
    }
    proof {
        assert(r@ =~= v@);
    }
    r
}

} // verus!
