//! Voucher admission: a static gate, a volatile gate against the oracle, and
//! the nonce-chain gate against the client's voucher record.
use crate::oracle::{ClientOracle, ClientOracleRecord};
use crate::voucher::{ClientId, ClientUnspentVouchers, UnspentView, UnspentVoucherTracker, VendorId, Voucher};
use vstd::prelude::*;

verus! {

/// Failures of the static gate, which needs no outside state.
#[derive(Clone, Copy, Debug, PartialEq, Eq, Structural)]
pub enum StaticVAuthErr {
    InvalidSig,
    VoucherHasZeroAtoms,
    InvalidVendor,
}

/// Failures of the volatile gate, which reads the oracle.
#[derive(Clone, Copy, Debug, PartialEq, Eq, Structural)]
pub enum VolatileVAuthErr {
    IO,
    VoucherUsedUp,
    ClientIsNotSubscribed,
    ClientHasInsufficientBalance { seen_balance: u64, voucher_atoms: u64 },
}

/// Why a voucher is refused.
#[derive(Clone, Copy, Debug, PartialEq, Eq, Structural)]
pub enum VAuthErr {
    /// The nonce lies below the first unspent voucher.
    VoucherSpentOrNonceTooHigh,
    NewVoucherRace,
    /// The oracle holds no record of the client.
    IO,
    Static(StaticVAuthErr),
    Volatile(VolatileVAuthErr),
    /// The nonce skips past the one after the last known.
    InvalidNonce { signed_voucher: u64, last_known_voucher: u64 },
    /// A client's first voucher must have nonce 0.
    FirstVoucherNonceInvalid,
    InternalFailure,
}

/// Signature valid, atoms positive, issued to `vendor`.
pub open spec fn static_gate<V: Voucher>(v: V, vendor: VendorId) -> Result<(), StaticVAuthErr> {
    if !v.spec_valid_signature() {
        Err(StaticVAuthErr::InvalidSig)
    } else if v.spec_atoms() == 0 {
        Err(StaticVAuthErr::VoucherHasZeroAtoms)
    } else if v.spec_vendor() != vendor {
        Err(StaticVAuthErr::InvalidVendor)
    } else {
        Ok(())
    }
}

/// The client stays subscribed to `vendor` and its collateral to be covers the voucher.
pub open spec fn volatile_gate<V: Voucher>(v: V, rec: Option<ClientOracleRecord>, vendor: VendorId) -> Result<(), VAuthErr> {
    match rec {
        None => Err(VAuthErr::IO),
        Some(r) => if !r.vendors_to_be@.contains(vendor) {
            Err(VAuthErr::Volatile(VolatileVAuthErr::ClientIsNotSubscribed))
        } else if r.collateral_to_be < v.spec_atoms() {
            Err(
                VAuthErr::Volatile(
                    VolatileVAuthErr::ClientHasInsufficientBalance {
                        seen_balance: r.collateral_to_be,
                        voucher_atoms: v.spec_atoms(),
                    },
                ),
            )
        } else {
            Ok(())
        },
    }
}

/// The nonce-chain gate of a session: the first voucher has nonce 0; later
/// ones lie between the first unspent voucher and the one after the last known.
pub open spec fn chain_gate<V: Voucher>(r: UnspentView<V>, v: V) -> Result<(), VAuthErr> {
    match r.last_known_nonce {
        None => if v.spec_nonce() == 0 {
            Ok(())
        } else {
            Err(VAuthErr::FirstVoucherNonceInvalid)
        },
        Some(ln) => if v.spec_nonce() > ln + 1 {
            Err(VAuthErr::InvalidNonce { signed_voucher: v.spec_nonce(), last_known_voucher: ln })
        } else if v.spec_nonce() < r.first_unspent_nonce() {
            Err(VAuthErr::VoucherSpentOrNonceTooHigh)
        } else {
            Ok(())
        },
    }
}

/// Whether an admitted voucher is new to the record (the next in the chain).
pub open spec fn is_next<V: Voucher>(r: UnspentView<V>, v: V) -> bool {
    match r.last_known_nonce {
        None => true,
        Some(ln) => v.spec_nonce() == ln + 1,
    }
}

/// The record after admitting `v`: a new voucher is appended and becomes the last known.
pub open spec fn admitted<V: Voucher>(r: UnspentView<V>, v: V) -> UnspentView<V> {
    if is_next(r, v) {
        UnspentView { spent: r.spent, unspent: r.unspent.push(v), last_known_nonce: Some(v.spec_nonce()) }
    } else {
        r
    }
}

/// The oracle's record of `ci`, if any.
pub open spec fn oracle_record(o: Map<ClientId, ClientOracleRecord>, ci: ClientId) -> Option<ClientOracleRecord> {
    if o.contains_key(ci) {
        Some(o[ci])
    } else {
        None
    }
}

/// Outcome of the three gates of a session, in order.
pub open spec fn session_result<V: Voucher>(v: V, o: Map<ClientId, ClientOracleRecord>, r: UnspentView<V>, vendor: VendorId) -> Result<(), VAuthErr> {
    match static_gate(v, vendor) {
        Err(e) => Err(VAuthErr::Static(e)),
        Ok(()) => match volatile_gate(v, oracle_record(o, v.spec_client()), vendor) {
            Err(e) => Err(e),
            Ok(()) => chain_gate(r, v),
        },
    }
}

/// Outcome of the gates of a query: static, volatile, then a range check.
pub open spec fn query_result<V: Voucher>(v: V, o: Map<ClientId, ClientOracleRecord>, r: UnspentView<V>, vendor: VendorId) -> Result<(), VAuthErr> {
    match static_gate(v, vendor) {
        Err(e) => Err(VAuthErr::Static(e)),
        Ok(()) => match volatile_gate(v, oracle_record(o, v.spec_client()), vendor) {
            Err(e) => Err(e),
            Ok(()) => if r.in_unspent_range(v) {
                Ok(())
            } else {
                Err(VAuthErr::VoucherSpentOrNonceTooHigh)
            },
        },
    }
}

/// The volatile gate with the spent check first: a voucher below the first
/// unspent one is used up; then the oracle must show the subscription and
/// enough collateral to be.
pub open spec fn volatile_with_spent<V: Voucher>(v: V, r: UnspentView<V>, rec: Option<ClientOracleRecord>, vendor: VendorId) -> Result<(), VolatileVAuthErr> {
    if r.unspent.len() > 0 && r.unspent[0].spec_nonce() > v.spec_nonce() {
        Err(VolatileVAuthErr::VoucherUsedUp)
    } else {
        match rec {
            None => Err(VolatileVAuthErr::IO),
            Some(o) => if !o.vendors_to_be@.contains(vendor) {
                Err(VolatileVAuthErr::ClientIsNotSubscribed)
            } else if o.collateral_to_be < v.spec_atoms() {
                Err(VolatileVAuthErr::ClientHasInsufficientBalance { seen_balance: o.collateral_to_be, voucher_atoms: v.spec_atoms() })
            } else {
                Ok(())
            },
        }
    }
}

/// Outcome of full admission: static gate, volatile gate with the spent
/// check, then the nonce chain.
pub open spec fn auth_result<V: Voucher>(v: V, o: Map<ClientId, ClientOracleRecord>, r: UnspentView<V>, vendor: VendorId) -> Result<(), VAuthErr> {
    match static_gate(v, vendor) {
        Err(e) => Err(VAuthErr::Static(e)),
        Ok(()) => match volatile_with_spent(v, r, oracle_record(o, v.spec_client()), vendor) {
            Err(e) => Err(VAuthErr::Volatile(e)),
            Ok(()) => chain_gate(r, v),
        },
    }
}

/// Admits vouchers for one vendor.
pub struct VoucherAuth<V> {
    pub vt: UnspentVoucherTracker<V>,
    pub o: ClientOracle,
    /// The identity of this vendor.
    pub vendor: VendorId,
}

impl<V: Voucher> VoucherAuth<V> {
    pub fn new(vendor: VendorId, vt: UnspentVoucherTracker<V>, o: ClientOracle) -> (r: Self)
        ensures
            r.vendor == vendor,
            r.vt == vt,
            r.o == o,
    {
        VoucherAuth { vt, o, vendor }
    }

    /// The static gate.
    pub fn is_auth_static(&self, v: &V) -> (r: Result<(), StaticVAuthErr>)
        ensures
            r == static_gate(*v, self.vendor),
    {
        if !v.is_valid_signature() {
            return Err(StaticVAuthErr::InvalidSig);
        }
        if v.voucher_atoms() == 0 {
            return Err(StaticVAuthErr::VoucherHasZeroAtoms);
        }
        if v.vendor_identifier() != self.vendor {
            return Err(StaticVAuthErr::InvalidVendor);
        }
        Ok(())
    }

    /// The volatile gate, against the oracle's record of the voucher's client.
    pub fn check_oracle(&self, v: &V) -> (r: Result<(), VAuthErr>)
        ensures
            r == volatile_gate(*v, oracle_record(self.o.view(), v.spec_client()), self.vendor),
    {
        let rec = match self.o.read(v.client_identifier()) {
            Some(rec) => rec,
            None => return Err(VAuthErr::IO),
        };
        if !rec.is_subscribed_to_be(self.vendor) {
            return Err(VAuthErr::Volatile(VolatileVAuthErr::ClientIsNotSubscribed));
        }
        let collat = rec.collateral_to_be();
        let va = v.voucher_atoms();
        if collat < va {
            return Err(
                VAuthErr::Volatile(
                    VolatileVAuthErr::ClientHasInsufficientBalance { seen_balance: collat, voucher_atoms: va },
                ),
            );
        }
        Ok(())
    }

    /// Admits `v` at the start of a session: all three gates, and a voucher
    /// new to the chain is appended to the client's unspent list.
    pub fn is_auth_start_session(&mut self, v: &V) -> (r: Result<(), VAuthErr>)
        requires
            old(self).vt.wf(),
        ensures
            final(self).vt.wf(),
            final(self).vendor == old(self).vendor,
            final(self).o == old(self).o,
            r == session_result(*v, old(self).o.view(), old(self).vt.record(v.spec_client()), old(self).vendor),
            final(self).vt.record(v.spec_client()) == if r is Ok {
                admitted(old(self).vt.record(v.spec_client()), *v)
            } else {
                old(self).vt.record(v.spec_client())
            },
            forall|c: ClientId| c != v.spec_client() ==> #[trigger] final(self).vt.record(c) == old(self).vt.record(c),
    {
        match self.is_auth_static(v) {
            Ok(()) => {},
            Err(e) => return Err(VAuthErr::Static(e)),
        }
        self.check_oracle(v)?;
        let ci = v.client_identifier();
        let mut rec = self.vt.take(ci);
        let res = admit_to_chain(&mut rec, v);
        self.vt.put(ci, rec);
        res
    }

    /// The volatile gate, called on each packet since the client's state can
    /// change: the voucher must not be used up, and the oracle must show the
    /// subscription and enough collateral to be.
    pub fn is_auth_volatile(&self, v: &V) -> (r: Result<(), VolatileVAuthErr>)
        requires
            self.vt.wf(),
        ensures
            r == volatile_with_spent(*v, self.vt.record(v.spec_client()), oracle_record(self.o.view(), v.spec_client()), self.vendor),
    {
        let ci = v.client_identifier();
        let first_unspent: Option<u64> = match self.vt.get(ci) {
            Some(rec) => {
                if rec.unspent_vouchers.len() > 0 {
                    Some(rec.unspent_vouchers[0].nonce())
                } else {
                    None
                }
            },
            None => None,
        };
        if let Some(first) = first_unspent {
            if first > v.nonce() {
                return Err(VolatileVAuthErr::VoucherUsedUp);
            }
        }
        let rec = match self.o.read(ci) {
            Some(rec) => rec,
            None => return Err(VolatileVAuthErr::IO),
        };
        if !rec.is_subscribed_to_be(self.vendor) {
            return Err(VolatileVAuthErr::ClientIsNotSubscribed);
        }
        let collat = rec.collateral_to_be();
        let va = v.voucher_atoms();
        if collat < va {
            return Err(VolatileVAuthErr::ClientHasInsufficientBalance { seen_balance: collat, voucher_atoms: va });
        }
        Ok(())
    }

    /// Full admission: the static gate, the volatile gate with its spent
    /// check, then the nonce chain, which stores a voucher new to it.
    pub fn is_auth(&mut self, v: &V) -> (r: Result<(), VAuthErr>)
        requires
            old(self).vt.wf(),
        ensures
            final(self).vt.wf(),
            final(self).vendor == old(self).vendor,
            final(self).o == old(self).o,
            r == auth_result(*v, old(self).o.view(), old(self).vt.record(v.spec_client()), old(self).vendor),
            final(self).vt.record(v.spec_client()) == if r is Ok {
                admitted(old(self).vt.record(v.spec_client()), *v)
            } else {
                old(self).vt.record(v.spec_client())
            },
            forall|c: ClientId| c != v.spec_client() ==> #[trigger] final(self).vt.record(c) == old(self).vt.record(c),
    {
        match self.is_auth_static(v) {
            Ok(()) => {},
            Err(e) => return Err(VAuthErr::Static(e)),
        }
        match self.is_auth_volatile(v) {
            Ok(()) => {},
            Err(e) => return Err(VAuthErr::Volatile(e)),
        }
        let ci = v.client_identifier();
        let mut rec = self.vt.take(ci);
        let res = admit_to_chain(&mut rec, v);
        self.vt.put(ci, rec);
        res
    }

    /// Admits `v` for a query within a session: static and volatile gates and
    /// a range check on the nonce; nothing is inserted.
    pub fn is_auth_start_query(&self, v: &V) -> (r: Result<(), VAuthErr>)
        requires
            self.vt.wf(),
        ensures
            r == query_result(*v, self.o.view(), self.vt.record(v.spec_client()), self.vendor),
    {
        match self.is_auth_static(v) {
            Ok(()) => {},
            Err(e) => return Err(VAuthErr::Static(e)),
        }
        self.check_oracle(v)?;
        let ok = match self.vt.get(v.client_identifier()) {
            Some(rec) => {
                proof {
                    assert(self.vt.record(v.spec_client()) == rec@);
                    assert(self.vt.record(v.spec_client()).wf());
                }
                rec.is_unspent_nonce_range(v)
            },
            None => v.nonce() == 0,
        };
        if ok {
            Ok(())
        } else {
            Err(VAuthErr::VoucherSpentOrNonceTooHigh)
        }
    }
}

/// The nonce-chain gate on one client's record, appending `v` when it is the
/// next voucher of the chain.
pub fn admit_to_chain<V: Voucher>(rec: &mut ClientUnspentVouchers<V>, v: &V) -> (r: Result<(), VAuthErr>)
    requires
        old(rec).wf(),
    ensures
        final(rec).wf(),
        r == chain_gate(old(rec)@, *v),
        final(rec)@ == if r is Ok {
            admitted(old(rec)@, *v)
        } else {
            old(rec)@
        },
{
    let n = v.nonce();
    match rec.last_known_nonce {
        None => {
            if n != 0 {
                return Err(VAuthErr::FirstVoucherNonceInvalid);
            }
        },
        Some(ln) => {
            if ln < u64::MAX && n > ln + 1 {
                return Err(VAuthErr::InvalidNonce { signed_voucher: n, last_known_voucher: ln });
            }
            if !rec.is_unspent_nonce_range(v) {
                return Err(VAuthErr::VoucherSpentOrNonceTooHigh);
            }
            if ln == u64::MAX || n != ln + 1 {
                return Ok(());
            }
        },
    }
    rec.unspent_vouchers.push(v.duplicate());
    rec.last_known_nonce = Some(n);
    proof {
        let u = rec.unspent_vouchers@;
        assert forall|i: int| 0 <= i < u.len() - 1 implies #[trigger] u[i + 1].spec_nonce() == u[i].spec_nonce() + 1 by {
            if i + 1 < u.len() - 1 {
                assert(old(rec).unspent_vouchers@[i + 1].spec_nonce() == old(rec).unspent_vouchers@[i].spec_nonce() + 1);
            }
        }
    }
    Ok(())
}

proof fn lemma_consecutive_nonces<V: Voucher>(s: Seq<V>, i: int)
    requires
        crate::voucher::consecutive(s),
        0 <= i < s.len(),
    ensures
        s[i].spec_nonce() == s[0].spec_nonce() + i,
    decreases i,
{
    if i > 0 {
        lemma_consecutive_nonces(s, i - 1);
        let j = i - 1;
        assert(s[j + 1].spec_nonce() == s[j].spec_nonce() + 1);
    }
}

/// Admitting the same voucher twice inserts it once: once admitted, a voucher
/// passes the chain gate again and leaves the record as it is.
pub proof fn lemma_admission_idempotent<V: Voucher>(r: UnspentView<V>, v: V)
    requires
        r.wf(),
        chain_gate(r, v) is Ok,
    ensures
        admitted(r, v).wf(),
        chain_gate(admitted(r, v), v) is Ok,
        admitted(admitted(r, v), v) == admitted(r, v),
{
    if is_next(r, v) {
        let a = admitted(r, v);
        if r.unspent.len() > 0 {
            lemma_consecutive_nonces(r.unspent, r.unspent.len() - 1);
        }
        assert forall|i: int| 0 <= i < a.unspent.len() - 1 implies #[trigger] a.unspent[i + 1].spec_nonce() == a.unspent[i].spec_nonce() + 1 by {
            if i + 1 < r.unspent.len() {
                assert(r.unspent[i + 1].spec_nonce() == r.unspent[i].spec_nonce() + 1);
            }
        }
        if r.unspent.len() > 0 {
            assert(a.unspent[0] == r.unspent[0]);
        }
    }
}

/// Admission never moves the last known nonce back: it stays, or becomes the
/// admitted voucher's nonce, one past the previous one.
pub proof fn lemma_last_known_monotone<V: Voucher>(r: UnspentView<V>, v: V)
    requires
        chain_gate(r, v) is Ok,
    ensures
        admitted(r, v).last_known_nonce is Some,
        r.last_known_nonce matches Some(ln) ==> admitted(r, v).last_known_nonce->0 >= ln,
        is_next(r, v) ==> admitted(r, v).last_known_nonce == Some(v.spec_nonce()),
{
}

} // verus!
