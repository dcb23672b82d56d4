//! Session and query admission, credit locking, and query settlement.
use crate::auth::{oracle_record, query_result, session_result, VAuthErr, VoucherAuth, admitted};
use crate::balance::{OutstandingBalanceRecord, OutstandingBalanceTracker};
use crate::oracle::{min_int, safe_cap, sat_sub, ClientRiskConfig};
use crate::voucher::{min_atoms, sum_atoms, ClientId, ClientUnspentVouchers, UnspentView, Voucher};
use vstd::prelude::*;

verus! {

/// Why an engine call failed.
#[derive(Clone, Copy, Debug, PartialEq, Eq, Structural)]
pub enum EngineErr {
    VAuth(VAuthErr),
    /// A record the call needs is missing from its store.
    IO,
}

/// Whether a query may go ahead, and the cost locked for it.
#[derive(Clone, Copy, Debug, PartialEq, Eq, Structural)]
pub struct QueryCont {
    /// Approximate cost locked so that parallel calls cannot spend the same atoms.
    pub locked_cost: u64,
    /// The cost checks passed.
    pub should_continue: bool,
}

/// Credit available to a query: `min(cap, unspent ⊖ outstanding ⊖ locked)`.
pub open spec fn safe_avail(unspent: int, b: OutstandingBalanceRecord, cap: int) -> int {
    min_int(cap, sat_sub(sat_sub(unspent, b.outstanding as int), b.locked as int))
}

/// Decision on a query of approximate cost `cost`: refused when above the
/// available credit, else the cost is locked.
pub open spec fn query_decision(unspent: int, b: OutstandingBalanceRecord, cap: int, cost: u64) -> (QueryCont, OutstandingBalanceRecord) {
    if cost > safe_avail(unspent, b, cap) {
        (QueryCont { locked_cost: 0, should_continue: false }, b)
    } else {
        (
            QueryCont { locked_cost: cost, should_continue: true },
            OutstandingBalanceRecord { outstanding: b.outstanding, locked: (b.locked + cost) as u64 },
        )
    }
}

pub open spec fn sat_add(a: u64, b: u64) -> u64 {
    if a + b > u64::MAX {
        u64::MAX
    } else {
        (a + b) as u64
    }
}

/// A client's records after settling query `q` at `cost`: the cost joins the
/// outstanding obligation, the lock is released, and when the obligation
/// covers the first unspent voucher, that voucher is spent and its atoms retired.
pub open spec fn settled<V: Voucher>(r: UnspentView<V>, b: OutstandingBalanceRecord, q: QueryCont, cost: u64) -> (UnspentView<V>, OutstandingBalanceRecord) {
    if !q.should_continue {
        (r, b)
    } else {
        let o1 = sat_add(b.outstanding, cost);
        let l1 = sat_sub(b.locked as int, q.locked_cost as int) as u64;
        if r.unspent.len() > 0 && o1 >= r.unspent[0].spec_atoms() {
            (
                UnspentView { spent: r.spent.push(r.unspent[0]), unspent: r.unspent.drop_first(), last_known_nonce: r.last_known_nonce },
                OutstandingBalanceRecord { outstanding: (o1 - r.unspent[0].spec_atoms()) as u64, locked: l1 },
            )
        } else {
            (r, OutstandingBalanceRecord { outstanding: o1, locked: l1 })
        }
    }
}

/// Locks `aprx_cost` on `bal` if the available credit allows it.
pub fn try_lock(bal: &mut OutstandingBalanceRecord, unspent: u64, cap: u64, aprx_cost: u64) -> (r: QueryCont)
    ensures
        (r, *final(bal)) == query_decision(unspent as int, *old(bal), cap as int, aprx_cost),
{
    let free = unspent.saturating_sub(bal.outstanding).saturating_sub(bal.locked);
    let avail = if cap <= free {
        cap
    } else {
        free
    };
    if aprx_cost > avail {
        return QueryCont { locked_cost: 0, should_continue: false };
    }
    bal.locked = bal.locked + aprx_cost;
    QueryCont { locked_cost: aprx_cost, should_continue: true }
}

/// Settles query `q` at `actual_cost` on one client's records; returns the
/// voucher that was spent, if any.
pub fn settle_records<V: Voucher>(bal: &mut OutstandingBalanceRecord, rec: &mut ClientUnspentVouchers<V>, q: &QueryCont, actual_cost: u64) -> (r: Option<V>)
    requires
        old(rec).wf(),
    ensures
        final(rec).wf(),
        (final(rec)@, *final(bal)) == settled(old(rec)@, *old(bal), *q, actual_cost),
        match r {
            Some(v) => final(rec)@.spent == old(rec)@.spent.push(v),
            None => final(rec)@.spent == old(rec)@.spent,
        },
{
    if !q.should_continue {
        return None;
    }
    bal.outstanding = bal.outstanding.saturating_add(actual_cost);
    bal.locked = bal.locked.saturating_sub(q.locked_cost);
    let popped = rec.retire_covered(bal.outstanding);
    match popped {
        Some(v) => {
            bal.outstanding = bal.outstanding - v.voucher_atoms();
            Some(v)
        },
        None => None,
    }
}

/// The vendor-facing engine: admits sessions and queries and accounts for their cost.
pub struct ApiEngine<V> {
    pub va: VoucherAuth<V>,
    pub ob: OutstandingBalanceTracker,
    pub cr: ClientRiskConfig,
}

impl<V: Voucher> ApiEngine<V> {
    pub fn new(va: VoucherAuth<V>, ob: OutstandingBalanceTracker, cr: ClientRiskConfig) -> (r: Self)
        ensures
            r.va == va,
            r.ob == ob,
            r.cr == cr,
    {
        ApiEngine { va, ob, cr }
    }

    /// Admits a voucher at the start of a session; a voucher new to the chain is stored.
    pub fn accept_session(&mut self, v: &V) -> (r: Result<(), EngineErr>)
        requires
            old(self).va.vt.wf(),
        ensures
            final(self).va.vt.wf(),
            final(self).va.vendor == old(self).va.vendor,
            final(self).va.o == old(self).va.o,
            final(self).ob == old(self).ob,
            final(self).cr == old(self).cr,
            r == match session_result(*v, old(self).va.o.view(), old(self).va.vt.record(v.spec_client()), old(self).va.vendor) {
                Ok(()) => Ok::<(), EngineErr>(()),
                Err(e) => Err(EngineErr::VAuth(e)),
            },
            final(self).va.vt.record(v.spec_client()) == if r is Ok {
                admitted(old(self).va.vt.record(v.spec_client()), *v)
            } else {
                old(self).va.vt.record(v.spec_client())
            },
            forall|c: ClientId| c != v.spec_client() ==> #[trigger] final(self).va.vt.record(c) == old(self).va.vt.record(c),
    {
        match self.va.is_auth_start_session(v) {
            Ok(()) => Ok(()),
            Err(e) => Err(EngineErr::VAuth(e)),
        }
    }

    /// Admits a voucher for a query within a session; nothing is stored.
    pub fn accept_query(&self, v: &V) -> (r: Result<(), EngineErr>)
        requires
            self.va.vt.wf(),
        ensures
            r == match query_result(*v, self.va.o.view(), self.va.vt.record(v.spec_client()), self.va.vendor) {
                Ok(()) => Ok::<(), EngineErr>(()),
                Err(e) => Err(EngineErr::VAuth(e)),
            },
    {
        match self.va.is_auth_start_query(v) {
            Ok(()) => Ok(()),
            Err(e) => Err(EngineErr::VAuth(e)),
        }
    }

    /// Decides whether client `ci` may run a query of approximate cost
    /// `aprx_cost`, and locks that cost if so. Fails when the oracle or the
    /// balance store has no record of the client.
    pub fn query(&mut self, ci: ClientId, aprx_cost: u64) -> (r: Result<QueryCont, EngineErr>)
        requires
            old(self).va.vt.wf(),
        ensures
            final(self).va.vt.wf(),
            final(self).va.vendor == old(self).va.vendor,
            final(self).va.o == old(self).va.o,
            final(self).cr == old(self).cr,
            forall|c: ClientId| #[trigger] final(self).va.vt.record(c) == old(self).va.vt.record(c),
            match oracle_record(old(self).va.o.view(), ci) {
                None => r == Err::<QueryCont, EngineErr>(EngineErr::IO) && final(self).ob.view() == old(self).ob.view(),
                Some(o) => if !old(self).ob.view().contains_key(ci) {
                    r == Err::<QueryCont, EngineErr>(EngineErr::IO) && final(self).ob.view() == old(self).ob.view()
                } else {
                    let d = query_decision(
                        min_atoms(sum_atoms(old(self).va.vt.record(ci).unspent)),
                        old(self).ob.view()[ci],
                        safe_cap(o.collateral_to_be as int, o.subscriptions_now as int, old(self).cr.spec_expand_risk() as int),
                        aprx_cost,
                    );
                    r == Ok::<QueryCont, EngineErr>(d.0) && final(self).ob.view() == old(self).ob.view().insert(ci, d.1)
                },
            },
    {
        let (collat, subs) = match self.va.o.read(ci) {
            Some(o) => (o.collateral_to_be(), o.subscriptions_now()),
            None => return Err(EngineErr::IO),
        };
        let cap = self.cr.get_client_risk_adj_collateral(collat, subs);
        let mut bal = match self.ob.get(ci) {
            Some(b) => b,
            None => return Err(EngineErr::IO),
        };
        let rec = self.va.vt.take(ci);
        let unspent = rec.unspent_atoms();
        self.va.vt.put(ci, rec);
        let qc = try_lock(&mut bal, unspent, cap, aprx_cost);
        self.ob.insert(ci, bal);
        Ok(qc)
    }

    /// Settles a query of client `ci` at its actual cost: the cost becomes
    /// obligation, the lock is released, and at most one voucher whose atoms
    /// the obligation covers is spent. Nothing happens for a refused query.
    pub fn settle_query(&mut self, ci: ClientId, q: &QueryCont, actual_cost: u64) -> (r: Result<(), EngineErr>)
        requires
            old(self).va.vt.wf(),
        ensures
            final(self).va.vt.wf(),
            final(self).va.vendor == old(self).va.vendor,
            final(self).va.o == old(self).va.o,
            final(self).cr == old(self).cr,
            forall|c: ClientId| c != ci ==> #[trigger] final(self).va.vt.record(c) == old(self).va.vt.record(c),
            if !q.should_continue {
                r is Ok && final(self).ob.view() == old(self).ob.view() && final(self).va.vt.record(ci) == old(self).va.vt.record(ci)
            } else if !old(self).ob.view().contains_key(ci) {
                r == Err::<(), EngineErr>(EngineErr::IO) && final(self).ob.view() == old(self).ob.view()
                    && final(self).va.vt.record(ci) == old(self).va.vt.record(ci)
            } else {
                let s = settled(old(self).va.vt.record(ci), old(self).ob.view()[ci], *q, actual_cost);
                r is Ok && final(self).va.vt.record(ci) == s.0 && final(self).ob.view() == old(self).ob.view().insert(ci, s.1)
            },
    {
        if !q.should_continue {
            return Ok(());
        }
        let mut bal = match self.ob.get(ci) {
            Some(b) => b,
            None => return Err(EngineErr::IO),
        };
        let mut rec = self.va.vt.take(ci);
        let _spent = settle_records(&mut bal, &mut rec, q, actual_cost);
        self.va.vt.put(ci, rec);
        self.ob.insert(ci, bal);
        Ok(())
    }
}

/// A query goes ahead only when its approximate cost is within the safe cap
/// (and within the unspent atoms left after the outstanding and locked ones).
pub proof fn lemma_query_within_safe_cap(unspent: int, b: OutstandingBalanceRecord, cap: int, cost: u64)
    requires
        query_decision(unspent, b, cap, cost).0.should_continue,
    ensures
        cost <= cap,
        cost <= sat_sub(sat_sub(unspent, b.outstanding as int), b.locked as int),
        query_decision(unspent, b, cap, cost).0.locked_cost == cost,
{
}

/// Every settlement transition keeps the books: the realised cost joins the
/// outstanding obligation or retires into a spent voucher, never both and
/// never lost, so that over any run the realised costs add up to the atoms of
/// the spent vouchers plus what is outstanding (provided the obligation does
/// not saturate at `u64::MAX`).
pub proof fn lemma_settlement_reconciles<V: Voucher>(r: UnspentView<V>, b: OutstandingBalanceRecord, q: QueryCont, cost: u64)
    requires
        b.outstanding + cost <= u64::MAX,
    ensures
        ({
            let (r2, b2) = settled(r, b, q, cost);
            let realised = if q.should_continue {
                cost as int
            } else {
                0
            };
            b2.outstanding + sum_atoms(r2.spent) == b.outstanding + sum_atoms(r.spent) + realised
        }),
{
    if q.should_continue {
        let o1 = sat_add(b.outstanding, cost);
        if r.unspent.len() > 0 && o1 >= r.unspent[0].spec_atoms() {
            assert(r.spent.push(r.unspent[0]).drop_last() =~= r.spent);
        }
    }
}

} // verus!
