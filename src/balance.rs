//! Per-client outstanding obligation and locked in-flight cost.
use crate::voucher::ClientId;
use std::collections::HashMap;
use vstd::prelude::*;

verus! {

broadcast use vstd::std_specs::hash::group_hash_axioms;

/// A client's counters, in atoms.
#[derive(Clone, Copy, Debug, PartialEq, Eq, Structural)]
pub struct OutstandingBalanceRecord {
    /// Realised cost not yet matched by a spent voucher.
    pub outstanding: u64,
    /// Approved cost of queries not yet settled.
    pub locked: u64,
}

/// A client has no balance record.
#[derive(Clone, Copy, Debug, PartialEq, Eq, Structural)]
pub enum BalanceErr {
    MissingClient,
}

/// The balance records, by client.
pub struct OutstandingBalanceTracker {
    records: HashMap<ClientId, OutstandingBalanceRecord>,
}

impl OutstandingBalanceTracker {
    pub closed spec fn view(&self) -> Map<ClientId, OutstandingBalanceRecord> {
        self.records@
    }

    pub fn new() -> (r: Self)
        ensures
            r.view() == Map::<ClientId, OutstandingBalanceRecord>::empty(),
    {
        OutstandingBalanceTracker { records: HashMap::new() }
    }

    /// Sets the record of `ci`.
    pub fn insert(&mut self, ci: ClientId, rec: OutstandingBalanceRecord)
        ensures
            final(self).view() == old(self).view().insert(ci, rec),
    {
        self.records.insert(ci, rec);
    }

    /// The record of `ci`, if any.
    pub fn get(&self, ci: ClientId) -> (r: Option<OutstandingBalanceRecord>)
        ensures
            match r {
                Some(x) => self.view().contains_key(ci) && x == self.view()[ci],
                None => !self.view().contains_key(ci),
            },
    {
        match self.records.get(&ci) {
            Some(x) => Some(*x),
            None => None,
        }
    }

    /// `outstanding += atoms` (saturating).
    pub fn add_obligation(&mut self, ci: ClientId, atoms: u64) -> (r: Result<(), BalanceErr>)
        ensures
            old(self).view().contains_key(ci) ==> r is Ok && final(self).view() == old(self).view().insert(
                ci,
                OutstandingBalanceRecord {
                    outstanding: old(self).view()[ci].outstanding.saturating_add(atoms),
                    ..old(self).view()[ci]
                },
            ),
            !old(self).view().contains_key(ci) ==> r == Err::<(), BalanceErr>(BalanceErr::MissingClient)
                && final(self).view() == old(self).view(),
    {
        match self.get(ci) {
            Some(x) => {
                self.insert(ci, OutstandingBalanceRecord { outstanding: x.outstanding.saturating_add(atoms), ..x });
                Ok(())
            },
            None => Err(BalanceErr::MissingClient),
        }
    }

    /// Releases cost locked for a query: `locked = locked ⊖ atoms`.
    pub fn unlock(&mut self, ci: ClientId, atoms: u64) -> (r: Result<(), BalanceErr>)
        ensures
            old(self).view().contains_key(ci) ==> r is Ok && final(self).view() == old(self).view().insert(
                ci,
                OutstandingBalanceRecord {
                    locked: old(self).view()[ci].locked.saturating_sub(atoms),
                    ..old(self).view()[ci]
                },
            ),
            !old(self).view().contains_key(ci) ==> r == Err::<(), BalanceErr>(BalanceErr::MissingClient)
                && final(self).view() == old(self).view(),
    {
        match self.get(ci) {
            Some(x) => {
                self.insert(ci, OutstandingBalanceRecord { locked: x.locked.saturating_sub(atoms), ..x });
                Ok(())
            },
            None => Err(BalanceErr::MissingClient),
        }
    }

    /// Retires obligation once a voucher covers it: `outstanding = outstanding ⊖ atoms`.
    pub fn reduce_obligation(&mut self, ci: ClientId, atoms: u64) -> (r: Result<(), BalanceErr>)
        ensures
            old(self).view().contains_key(ci) ==> r is Ok && final(self).view() == old(self).view().insert(
                ci,
                OutstandingBalanceRecord {
                    outstanding: old(self).view()[ci].outstanding.saturating_sub(atoms),
                    ..old(self).view()[ci]
                },
            ),
            !old(self).view().contains_key(ci) ==> r == Err::<(), BalanceErr>(BalanceErr::MissingClient)
                && final(self).view() == old(self).view(),
    {
        match self.get(ci) {
            Some(x) => {
                self.insert(ci, OutstandingBalanceRecord { outstanding: x.outstanding.saturating_sub(atoms), ..x });
                Ok(())
            },
            None => Err(BalanceErr::MissingClient),
        }
    }
}

} // verus!
