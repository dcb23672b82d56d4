//! Read-only projection of a client's on-chain collateral and subscriptions,
//! and the risk-adjusted credit cap derived from it.
use crate::voucher::{ClientId, VendorId};
use std::collections::HashMap;
use vstd::prelude::*;

verus! {

broadcast use vstd::std_specs::hash::group_hash_axioms;

/// What the chain shows of one client.
pub struct ClientOracleRecord {
    /// Collateral at present.
    pub collateral_now: u64,
    /// Collateral once queued withdrawals have gone through.
    pub collateral_to_be: u64,
    /// Number of vendors the client is subscribed to at present.
    pub subscriptions_now: u64,
    /// Vendors the client stays subscribed to once queued changes have gone through.
    pub vendors_to_be: Vec<VendorId>,
}

impl ClientOracleRecord {
    pub fn collateral_now(&self) -> (r: u64)
        ensures
            r == self.collateral_now,
    {
        self.collateral_now
    }

    pub fn collateral_to_be(&self) -> (r: u64)
        ensures
            r == self.collateral_to_be,
    {
        self.collateral_to_be
    }

    pub fn subscriptions_now(&self) -> (r: u64)
        ensures
            r == self.subscriptions_now,
    {
        self.subscriptions_now
    }

    /// Whether the client stays subscribed to `vi`; false once an unsubscription is queued.
    pub fn is_subscribed_to_be(&self, vi: VendorId) -> (r: bool)
        ensures
            r == self.vendors_to_be@.contains(vi),
    {
        let mut i: usize = 0;
        while i < self.vendors_to_be.len()
            invariant
                0 <= i <= self.vendors_to_be@.len(),
                forall|j: int| 0 <= j < i ==> self.vendors_to_be@[j] != vi,
            decreases self.vendors_to_be@.len() - i,
        {
            if self.vendors_to_be[i] == vi {
                return true;
            }
            i += 1;
        }
        false
    }
}

/// The oracle's records, by client.
pub struct ClientOracle {
    records: HashMap<ClientId, ClientOracleRecord>,
}

impl ClientOracle {
    pub closed spec fn view(&self) -> Map<ClientId, ClientOracleRecord> {
        self.records@
    }

    pub fn new() -> (r: Self)
        ensures
            r.view() == Map::<ClientId, ClientOracleRecord>::empty(),
    {
        ClientOracle { records: HashMap::new() }
    }

    /// Replaces what is known of client `ci`.
    pub fn set(&mut self, ci: ClientId, rec: ClientOracleRecord)
        ensures
            final(self).view() == old(self).view().insert(ci, rec),
    {
        self.records.insert(ci, rec);
    }

    /// The record of `ci`, if the oracle has one.
    pub fn read(&self, ci: ClientId) -> (r: Option<&ClientOracleRecord>)
        ensures
            match r {
                Some(x) => self.view().contains_key(ci) && *x == self.view()[ci],
                None => !self.view().contains_key(ci),
            },
    {
        self.records.get(&ci)
    }
}

/// Buffer for burst subscriptions: a client may join this many more vendors
/// before the oracle notices.
pub const DEFAULT_VENDOR_CLIENT_EXPAND_RISK: u64 = 5;

/// Smallest voucher worth taking: 0.5 cent at 6 decimals.
pub const DEFAULT_MIN_VOUCHER_SIZE: u64 = 5000;

/// Credit a vendor may safely extend: the collateral shared among the
/// client's subscriptions plus the burst buffer.
pub open spec fn safe_cap(collateral: int, subscriptions: int, expand_risk: int) -> int {
    if subscriptions + expand_risk == 0 {
        collateral
    } else {
        collateral / (subscriptions + expand_risk)
    }
}

/// Risk settings of a vendor towards its clients.
#[derive(Clone, Copy, Debug, PartialEq, Eq, Structural)]
pub struct ClientRiskConfig {
    vendor_client_expand_risk: u64,
    min_voucher_size_atoms: u64,
}

impl ClientRiskConfig {
    pub closed spec fn spec_expand_risk(&self) -> u64 {
        self.vendor_client_expand_risk
    }

    pub closed spec fn spec_min_voucher(&self) -> u64 {
        self.min_voucher_size_atoms
    }

    /// The default settings.
    pub fn new() -> (r: Self)
        ensures
            r.spec_expand_risk() == DEFAULT_VENDOR_CLIENT_EXPAND_RISK,
            r.spec_min_voucher() == DEFAULT_MIN_VOUCHER_SIZE,
    {
        ClientRiskConfig {
            vendor_client_expand_risk: DEFAULT_VENDOR_CLIENT_EXPAND_RISK,
            min_voucher_size_atoms: DEFAULT_MIN_VOUCHER_SIZE,
        }
    }

    pub fn min_voucher(self, atoms: u64) -> (r: Self)
        ensures
            r.spec_min_voucher() == atoms,
            r.spec_expand_risk() == self.spec_expand_risk(),
    {
        ClientRiskConfig { min_voucher_size_atoms: atoms, ..self }
    }

    pub fn expand_risk(self, client_expand_risk: u64) -> (r: Self)
        ensures
            r.spec_expand_risk() == client_expand_risk,
            r.spec_min_voucher() == self.spec_min_voucher(),
    {
        ClientRiskConfig { vendor_client_expand_risk: client_expand_risk, ..self }
    }

    /// `collateral / (subscriptions + expand_risk)`, or the collateral itself when the divisor is 0.
    pub fn get_client_risk_adj_collateral(&self, ci_collateral: u64, ci_subscriptions: u64) -> (r: u64)
        ensures
            r == safe_cap(ci_collateral as int, ci_subscriptions as int, self.spec_expand_risk() as int),
    {
        let e = self.vendor_client_expand_risk;
        if ci_subscriptions > u64::MAX - e {
            assert(ci_collateral as int / (ci_subscriptions + e) == 0) by (nonlinear_arith)
                requires ci_subscriptions + e > u64::MAX, ci_collateral <= u64::MAX;
            return 0;
        }
        let sm = ci_subscriptions + e;
        if sm == 0 {
            return ci_collateral;
        }
        ci_collateral / sm
    }
}

/// What a client may spend: unspent voucher atoms less the not yet
/// redeemed cost, within the risk cap.
#[derive(Clone, Copy, Debug)]
pub struct UserCredit {
    /// Sum of the unspent vouchers' atoms.
    pub unspent: u64,
    /// Cost not yet matched by a spent voucher.
    pub unmarked: u64,
    /// Cap against burst over-consumption.
    pub cap: u64,
}

pub open spec fn sat_sub(a: int, b: int) -> int {
    if a >= b {
        a - b
    } else {
        0
    }
}

pub open spec fn min_int(a: int, b: int) -> int {
    if a <= b {
        a
    } else {
        b
    }
}

impl UserCredit {
    /// Credit the user can spend: `min(unspent ⊖ unmarked, cap)`.
    pub fn available(&self) -> (r: u64)
        ensures
            r == min_int(sat_sub(self.unspent as int, self.unmarked as int), self.cap as int),
    {
        let free = self.unspent.saturating_sub(self.unmarked);
        if free <= self.cap {
            free
        } else {
            self.cap
        }
    }
}

} // verus!
