//! Vouchers and the per-client ordered set of unspent ones.
use std::collections::HashMap;
use vstd::prelude::*;

verus! {

broadcast use vstd::std_specs::hash::group_hash_axioms;

pub type ClientId = u64;

pub type VendorId = u64;

/// A signed, monotonically numbered authorisation for a vendor to draw up to
/// `voucher_atoms` from a client.
pub trait Voucher: Sized {
    spec fn spec_valid_signature(&self) -> bool;

    spec fn spec_nonce(&self) -> u64;

    spec fn spec_atoms(&self) -> u64;

    spec fn spec_client(&self) -> ClientId;

    spec fn spec_vendor(&self) -> VendorId;

    /// Whether the cryptographic signature on the voucher holds.
    fn is_valid_signature(&self) -> (r: bool)
        ensures
            r == self.spec_valid_signature(),
    ;

    /// Position of the voucher in its client's chain, starting at 0.
    fn nonce(&self) -> (r: u64)
        ensures
            r == self.spec_nonce(),
    ;

    /// The atoms the voucher is signed for.
    fn voucher_atoms(&self) -> (r: u64)
        ensures
            r == self.spec_atoms(),
    ;

    fn client_identifier(&self) -> (r: ClientId)
        ensures
            r == self.spec_client(),
    ;

    fn vendor_identifier(&self) -> (r: VendorId)
        ensures
            r == self.spec_vendor(),
    ;

    /// An equal copy of the voucher.
    fn duplicate(&self) -> (r: Self)
        ensures
            r == *self,
    ;
}

/// A voucher given by its fields, with a signature taken as valid.
#[derive(Clone, Copy, Debug, PartialEq, Eq, Structural)]
pub struct TestVoucher {
    pub ci: u64,
    pub vi: u64,
    pub nonce: u64,
    pub atoms: u64,
}

impl Voucher for TestVoucher {
    open spec fn spec_valid_signature(&self) -> bool {
        true
    }

    open spec fn spec_nonce(&self) -> u64 {
        self.nonce
    }

    open spec fn spec_atoms(&self) -> u64 {
        self.atoms
    }

    open spec fn spec_client(&self) -> ClientId {
        self.ci
    }

    open spec fn spec_vendor(&self) -> VendorId {
        self.vi
    }

    fn is_valid_signature(&self) -> (r: bool) {
        true
    }

    fn nonce(&self) -> (r: u64) {
        self.nonce
    }

    fn voucher_atoms(&self) -> (r: u64) {
        self.atoms
    }

    fn client_identifier(&self) -> (r: ClientId) {
        self.ci
    }

    fn vendor_identifier(&self) -> (r: VendorId) {
        self.vi
    }

    fn duplicate(&self) -> (r: Self) {
        *self
    }
}

/// Sum of the atoms of a sequence of vouchers.
pub open spec fn sum_atoms<V: Voucher>(s: Seq<V>) -> int
    decreases s.len(),
{
    if s.len() == 0 {
        0
    } else {
        sum_atoms(s.drop_last()) + s.last().spec_atoms()
    }
}

/// Nonces of `s` climb by exactly one from each voucher to the next.
pub open spec fn consecutive<V: Voucher>(s: Seq<V>) -> bool {
    forall|i: int| 0 <= i < s.len() - 1 ==> #[trigger] s[i + 1].spec_nonce() == s[i].spec_nonce() + 1
}

/// A client's vouchers: those not yet spent, in nonce order, a staging buffer
/// of those just spent, and the nonce of the last voucher accepted.
pub struct ClientUnspentVouchers<V> {
    /// Vouchers just marked spent, waiting to be flushed to storage.
    pub spent_vouchers: Vec<V>,
    /// Vouchers not yet spent, ascending by nonce.
    pub unspent_vouchers: Vec<V>,
    /// `None` until the client's first voucher is accepted.
    pub last_known_nonce: Option<u64>,
}

/// Model of a client's voucher record.
pub struct UnspentView<V> {
    pub spent: Seq<V>,
    pub unspent: Seq<V>,
    pub last_known_nonce: Option<u64>,
}

impl<V: Voucher> UnspentView<V> {
    /// The record of a client never seen.
    pub open spec fn fresh() -> Self {
        UnspentView { spent: Seq::empty(), unspent: Seq::empty(), last_known_nonce: None }
    }

    /// The unspent list climbs by one per voucher and ends at the last known nonce.
    pub open spec fn wf(self) -> bool {
        &&& consecutive(self.unspent)
        &&& self.unspent.len() > 0 ==> self.last_known_nonce == Some(self.unspent.last().spec_nonce())
        &&& self.last_known_nonce is None ==> self.unspent.len() == 0
    }

    /// Nonce of the first voucher not yet spent (the next one to come when all are spent).
    pub open spec fn first_unspent_nonce(self) -> int {
        if self.unspent.len() > 0 {
            self.unspent[0].spec_nonce() as int
        } else {
            match self.last_known_nonce {
                Some(n) => n + 1,
                None => 0,
            }
        }
    }

    /// The nonce of `v` lies between the first unspent voucher and the one
    /// after the last known (only 0 before any voucher).
    pub open spec fn in_unspent_range(self, v: V) -> bool {
        match self.last_known_nonce {
            None => v.spec_nonce() == 0,
            Some(ln) => self.first_unspent_nonce() <= v.spec_nonce() <= ln + 1,
        }
    }
}

impl<V> View for ClientUnspentVouchers<V> {
    type V = UnspentView<V>;

    open spec fn view(&self) -> UnspentView<V> {
        UnspentView {
            spent: self.spent_vouchers@,
            unspent: self.unspent_vouchers@,
            last_known_nonce: self.last_known_nonce,
        }
    }
}

impl<V: Voucher> ClientUnspentVouchers<V> {
    pub open spec fn wf(&self) -> bool {
        self@.wf()
    }

    /// A record of a client never seen.
    pub fn new() -> (r: Self)
        ensures
            r@ == UnspentView::<V>::fresh(),
            r.wf(),
    {
        let r = ClientUnspentVouchers { spent_vouchers: Vec::new(), unspent_vouchers: Vec::new(), last_known_nonce: None };
        assert(r@.spent =~= Seq::<V>::empty());
        assert(r@.unspent =~= Seq::<V>::empty());
        r
    }

    /// Whether `v` may still be used: see `UnspentView::in_unspent_range`.
    pub fn is_unspent_nonce_range(&self, v: &V) -> (r: bool)
        requires
            self.wf(),
        ensures
            r == self@.in_unspent_range(*v),
    {
        let n = v.nonce();
        match self.last_known_nonce {
            None => n == 0,
            Some(ln) => {
                let first: u64 = if self.unspent_vouchers.len() > 0 {
                    self.unspent_vouchers[0].nonce()
                } else {
                    if ln == u64::MAX {
                        return false;
                    }
                    ln + 1
                };
                n >= first && (ln == u64::MAX || n <= ln + 1)
            },
        }
    }

    /// Sum of the atoms of the unspent vouchers, saturating at `u64::MAX`.
    pub fn unspent_atoms(&self) -> (r: u64)
        ensures
            r == min_atoms(sum_atoms(self.unspent_vouchers@)),
    {
        total_atoms(&self.unspent_vouchers)
    }

    /// Moves the first unspent voucher to the spent buffer when `outstanding`
    /// covers its atoms, and returns it.
    pub fn retire_covered(&mut self, outstanding: u64) -> (r: Option<V>)
        requires
            old(self).wf(),
        ensures
            final(self).wf(),
            final(self).last_known_nonce == old(self).last_known_nonce,
            match r {
                Some(v) => {
                    &&& old(self).unspent_vouchers@.len() > 0
                    &&& v == old(self).unspent_vouchers@[0]
                    &&& outstanding >= v.spec_atoms()
                    &&& final(self).unspent_vouchers@ == old(self).unspent_vouchers@.drop_first()
                    &&& final(self).spent_vouchers@ == old(self).spent_vouchers@.push(v)
                },
                None => {
                    &&& (old(self).unspent_vouchers@.len() == 0 || outstanding
                        < old(self).unspent_vouchers@[0].spec_atoms())
                    &&& final(self).unspent_vouchers@ == old(self).unspent_vouchers@
                    &&& final(self).spent_vouchers@ == old(self).spent_vouchers@
                },
            },
    {
        if self.unspent_vouchers.len() == 0 {
            return None;
        }
        if outstanding < self.unspent_vouchers[0].voucher_atoms() {
            return None;
        }
        let first = self.unspent_vouchers.remove(0);
        self.spent_vouchers.push(first.duplicate());
        assert(self.unspent_vouchers@ =~= old(self).unspent_vouchers@.drop_first());
        assert forall|i: int| 0 <= i < self.unspent_vouchers@.len() - 1 implies #[trigger] self.unspent_vouchers@[i + 1].spec_nonce()
            == self.unspent_vouchers@[i].spec_nonce() + 1 by {
            let j = i + 1;
            assert(old(self).unspent_vouchers@[j + 1].spec_nonce() == old(self).unspent_vouchers@[j].spec_nonce() + 1);
        }
        Some(first)
    }
}

/// `x`, or `u64::MAX` when `x` exceeds it.
pub open spec fn min_atoms(x: int) -> int {
    if x > u64::MAX {
        u64::MAX as int
    } else {
        x
    }
}

/// Sum of the atoms of `s`, saturating at `u64::MAX`.
pub fn total_atoms<V: Voucher>(s: &Vec<V>) -> (r: u64)
    ensures
        r == min_atoms(sum_atoms(s@)),
{
    let mut sum: u64 = 0;
    let mut i: usize = 0;
    while i < s.len()
        invariant
            0 <= i <= s@.len(),
            sum == min_atoms(sum_atoms(s@.subrange(0, i as int))),
        decreases s@.len() - i,
    {
        let a = s[i].voucher_atoms();
        proof {
            assert(s@.subrange(0, i + 1).drop_last() =~= s@.subrange(0, i as int));
            lemma_sum_atoms_nonneg(s@.subrange(0, i as int));
        }
        sum = sum.saturating_add(a);
        i += 1;
    }
    assert(s@.subrange(0, i as int) =~= s@);
    sum
}

pub proof fn lemma_sum_atoms_nonneg<V: Voucher>(s: Seq<V>)
    ensures
        sum_atoms(s) >= 0,
    decreases s.len(),
{
    if s.len() > 0 {
        lemma_sum_atoms_nonneg(s.drop_last());
    }
}

/// The voucher records of all clients.
pub struct UnspentVoucherTracker<V> {
    clients: HashMap<ClientId, ClientUnspentVouchers<V>>,
}

impl<V: Voucher> UnspentVoucherTracker<V> {
    pub closed spec fn view(&self) -> Map<ClientId, UnspentView<V>> {
        self.clients@.map_values(|r: ClientUnspentVouchers<V>| r@)
    }

    /// The record of `ci`; a client never seen has a fresh one.
    pub open spec fn record(&self, ci: ClientId) -> UnspentView<V> {
        if self.view().contains_key(ci) {
            self.view()[ci]
        } else {
            UnspentView::fresh()
        }
    }

    /// Every record is well formed.
    pub open spec fn wf(&self) -> bool {
        forall|ci: ClientId| #[trigger] self.record(ci).wf()
    }

    pub fn new() -> (r: Self)
        ensures
            r.wf(),
            forall|ci: ClientId| #[trigger] r.record(ci) == UnspentView::<V>::fresh(),
    {
        let r = UnspentVoucherTracker { clients: HashMap::new() };
        assert(r.view() =~= Map::<ClientId, UnspentView<V>>::empty());
        r
    }

    /// The stored record of `ci`, if any.
    pub fn get(&self, ci: ClientId) -> (r: Option<&ClientUnspentVouchers<V>>)
        ensures
            match r {
                Some(x) => self.view().contains_key(ci) && x@ == self.view()[ci],
                None => !self.view().contains_key(ci),
            },
    {
        self.clients.get(&ci)
    }

    /// Takes the record of `ci` out for a read-modify-write; `put` returns it.
    pub fn take(&mut self, ci: ClientId) -> (r: ClientUnspentVouchers<V>)
        requires
            old(self).wf(),
        ensures
            r@ == old(self).record(ci),
            r.wf(),
            forall|c: ClientId| c != ci ==> #[trigger] final(self).record(c) == old(self).record(c),
            final(self).wf(),
    {
        let ghost before = self.record(ci);
        let r = match self.clients.remove(&ci) {
            Some(r) => r,
            None => ClientUnspentVouchers::new(),
        };
        proof {
            assert(self.view() =~= old(self).view().remove(ci));
            assert forall|c: ClientId| #[trigger] self.record(c).wf() by {
                assert(old(self).record(c).wf());
                if c == ci {
                    assert(!self.view().contains_key(ci));
                }
            }
        }
        r
    }

    /// Stores `r` as the record of `ci`.
    pub fn put(&mut self, ci: ClientId, r: ClientUnspentVouchers<V>)
        requires
            old(self).wf(),
            r.wf(),
        ensures
            final(self).record(ci) == r@,
            forall|c: ClientId| c != ci ==> #[trigger] final(self).record(c) == old(self).record(c),
            final(self).wf(),
    {
        let ghost rv = r@;
        self.clients.insert(ci, r);
        proof {
            assert(self.view() =~= old(self).view().insert(ci, rv));
            assert forall|c: ClientId| #[trigger] self.record(c).wf() by {
                assert(old(self).record(c).wf());
            }
        }
    }
}

} // verus!
