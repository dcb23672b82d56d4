//! Settlement: when to submit a client's unspent vouchers on chain, which of
//! them, and the bookkeeping of the one job that may be in flight per client.
use crate::oracle::{min_int, safe_cap, ClientOracleRecord, ClientRiskConfig};
use crate::voucher::{min_atoms, sum_atoms, total_atoms, VendorId, Voucher};
use vstd::prelude::*;

verus! {

/// An external job that submits a prefix of vouchers on chain. It is driven
/// from outside: whether it has finished, or succeeded, may change between
/// two calls, so only the nonce it was launched for is tied to its value.
pub trait SettleJob {
    /// Nonce of the last voucher the job settles, fixed when it is launched.
    spec fn spec_up_to(&self) -> u64;

    fn is_finished(&self) -> bool;

    fn is_successful(&self) -> bool;

    /// Nonce of the last voucher the job settles.
    fn up_to_incl_nonce(&self) -> (r: u64)
        ensures
            r == self.spec_up_to(),
    ;

    /// Reference of the settling transaction.
    fn reference(&self) -> String;
}

/// A job whose progress is recorded by whoever drives the submission.
pub struct RecordedJob {
    pub finished: bool,
    pub successful: bool,
    pub up_to: u64,
    pub reference: String,
}

impl SettleJob for RecordedJob {
    open spec fn spec_up_to(&self) -> u64 {
        self.up_to
    }

    fn is_finished(&self) -> bool {
        self.finished
    }

    fn is_successful(&self) -> bool {
        self.successful
    }

    fn up_to_incl_nonce(&self) -> (r: u64) {
        self.up_to
    }

    fn reference(&self) -> String {
        self.reference.clone()
    }
}

/// A voucher settled on chain, with the reference of the settling transaction.
pub struct SettledVoucher<V> {
    pub v: V,
    pub reference: String,
}

/// The vouchers of `s` with nonce at most `u`, in order.
pub open spec fn settled_part<V: Voucher>(s: Seq<V>, u: u64) -> Seq<V>
    decreases s.len(),
{
    if s.len() == 0 {
        Seq::empty()
    } else if s.last().spec_nonce() <= u {
        settled_part(s.drop_last(), u).push(s.last())
    } else {
        settled_part(s.drop_last(), u)
    }
}

/// The vouchers of `s` with nonce above `u`, in order.
pub open spec fn unsettled_part<V: Voucher>(s: Seq<V>, u: u64) -> Seq<V>
    decreases s.len(),
{
    if s.len() == 0 {
        Seq::empty()
    } else if s.last().spec_nonce() > u {
        unsettled_part(s.drop_last(), u).push(s.last())
    } else {
        unsettled_part(s.drop_last(), u)
    }
}

/// `after` is `before` followed by `moved`, each moved voucher tagged with `reference`.
pub open spec fn appended_settled<V>(before: Seq<SettledVoucher<V>>, after: Seq<SettledVoucher<V>>, moved: Seq<V>, reference: Seq<char>) -> bool {
    &&& after.len() == before.len() + moved.len()
    &&& forall|i: int| 0 <= i < before.len() ==> #[trigger] after[i] == before[i]
    &&& forall|j: int|
        0 <= j < moved.len() ==> (#[trigger] after[before.len() + j]).v == moved[j] && after[before.len()
            + j].reference@ == reference
}

/// A client's vouchers awaiting settlement, those settled, and the job in flight.
pub struct ClientSettleVouchers<V, J> {
    pub unsettled_vouchers: Vec<V>,
    pub settled_vouchers: Vec<SettledVoucher<V>>,
    /// At most one job per client.
    pub job: Option<J>,
}

impl<V: Voucher, J: SettleJob> ClientSettleVouchers<V, J> {
    /// The record `after` is what cleanup leaves of `self` when the attached
    /// job reports `finished` and `successful` (and cleanup returns `r`): no
    /// job or a running one leaves everything as it is; a failed job is
    /// dropped; a successful one is dropped after the vouchers up to its
    /// nonce have moved to the settled list under one reference.
    pub open spec fn cleanup_outcome(self, after: Self, finished: bool, successful: bool, r: bool) -> bool {
        match self.job {
            None => !r && after.job is None && after.unsettled_vouchers@ == self.unsettled_vouchers@
                && after.settled_vouchers@ == self.settled_vouchers@,
            Some(j) => if !finished {
                !r && after.job == self.job && after.unsettled_vouchers@ == self.unsettled_vouchers@
                    && after.settled_vouchers@ == self.settled_vouchers@
            } else if !successful {
                !r && after.job is None && after.unsettled_vouchers@ == self.unsettled_vouchers@
                    && after.settled_vouchers@ == self.settled_vouchers@
            } else {
                &&& r
                &&& after.job is None
                &&& after.unsettled_vouchers@ == unsettled_part(self.unsettled_vouchers@, j.spec_up_to())
                &&& exists|reference: Seq<char>|
                    appended_settled(
                        self.settled_vouchers@,
                        after.settled_vouchers@,
                        settled_part(self.unsettled_vouchers@, j.spec_up_to()),
                        reference,
                    )
            },
        }
    }

    pub fn new() -> (r: Self)
        ensures
            r.unsettled_vouchers@.len() == 0,
            r.settled_vouchers@.len() == 0,
            r.job is None,
    {
        ClientSettleVouchers { unsettled_vouchers: Vec::new(), settled_vouchers: Vec::new(), job: None }
    }

    /// Attaches job `j`, launched for the first `k` unsettled vouchers, when
    /// no job is attached and `j` settles exactly up to the `k`-th voucher's
    /// nonce; otherwise hands `j` back. The voucher lists are left alone.
    pub fn attach_settle_job(&mut self, k: usize, j: J) -> (r: Result<(), J>)
        ensures
            final(self).unsettled_vouchers@ == old(self).unsettled_vouchers@,
            final(self).settled_vouchers@ == old(self).settled_vouchers@,
            if old(self).job is None && 0 < k <= old(self).unsettled_vouchers@.len() && j.spec_up_to()
                == old(self).unsettled_vouchers@[k - 1].spec_nonce() {
                r is Ok && final(self).job == Some(j)
            } else {
                r == Err::<(), J>(j) && final(self).job == old(self).job
            },
    {
        if self.job.is_some() || k == 0 || k > self.unsettled_vouchers.len() {
            return Err(j);
        }
        if j.up_to_incl_nonce() != self.unsettled_vouchers[k - 1].nonce() {
            return Err(j);
        }
        self.job = Some(j);
        Ok(())
    }

    /// Moves every unsettled voucher with a nonce up to `up_to_incl_nonce` to
    /// the settled list, in order, each under `reference`; the job is left alone.
    pub fn settle_up_to(&mut self, up_to_incl_nonce: u64, reference: String)
        ensures
            final(self).unsettled_vouchers@ == unsettled_part(old(self).unsettled_vouchers@, up_to_incl_nonce),
            appended_settled(
                old(self).settled_vouchers@,
                final(self).settled_vouchers@,
                settled_part(old(self).unsettled_vouchers@, up_to_incl_nonce),
                reference@,
            ),
            final(self).job == old(self).job,
    {
        let up = up_to_incl_nonce;
        let ghost before = self.settled_vouchers@;
        let ghost all = self.unsettled_vouchers@;
        let mut keep: Vec<V> = Vec::new();
        let mut i: usize = 0;
        while i < self.unsettled_vouchers.len()
            invariant
                0 <= i <= all.len(),
                self.unsettled_vouchers@ == all,
                self.job == old(self).job,
                keep@ == unsettled_part(all.subrange(0, i as int), up),
                appended_settled(before, self.settled_vouchers@, settled_part(all.subrange(0, i as int), up), reference@),
            decreases all.len() - i,
        {
            let v = self.unsettled_vouchers[i].duplicate();
            proof {
                assert(all.subrange(0, i + 1).drop_last() =~= all.subrange(0, i as int));
            }
            if v.nonce() <= up {
                let ghost mid = self.settled_vouchers@;
                let ghost moved = settled_part(all.subrange(0, i as int), up);
                self.settled_vouchers.push(SettledVoucher { v, reference: reference.clone() });
                proof {
                    let moved2 = settled_part(all.subrange(0, i + 1), up);
                    assert(moved2 == moved.push(v));
                    let after = self.settled_vouchers@;
                    assert forall|t: int| 0 <= t < before.len() implies #[trigger] after[t] == before[t] by {
                        assert(after[t] == mid[t]);
                    }
                    assert forall|t: int| 0 <= t < moved2.len() implies (#[trigger] after[before.len() + t]).v
                        == moved2[t] && after[before.len() + t].reference@ == reference@ by {
                        if t < moved.len() {
                            assert(after[before.len() + t] == mid[before.len() + t]);
                        }
                    }
                }
            } else {
                keep.push(v);
            }
            i += 1;
        }
        assert(all.subrange(0, i as int) =~= all);
        self.unsettled_vouchers = keep;
    }

    /// Cleanup given what the attached job reports: see `cleanup_outcome`.
    pub fn apply_job_status(&mut self, finished: bool, successful: bool) -> (r: bool)
        ensures
            old(self).cleanup_outcome(*final(self), finished, successful, r),
    {
        if self.job.is_none() || !finished {
            return false;
        }
        let j = match self.job.take() {
            Some(j) => j,
            None => return false,
        };
        if !successful {
            return false;
        }
        let reference = j.reference();
        let up = j.up_to_incl_nonce();
        self.settle_up_to(up, reference);
        true
    }

    /// Removes a finished job. When it succeeded, every unsettled voucher with
    /// a nonce up to the job's last one moves to the settled list under the
    /// job's reference, and `true` is returned. A job still running stays; a
    /// failed one is dropped.
    pub fn try_cleanup_job(&mut self) -> (r: bool)
        ensures
            exists|finished: bool, successful: bool| old(self).cleanup_outcome(*final(self), finished, successful, r),
            final(self).job is None || final(self).job == old(self).job,
            r ==> old(self).job is Some && final(self).job is None,
    {
        let finished = match &self.job {
            Some(j) => j.is_finished(),
            None => false,
        };
        let successful = match &self.job {
            Some(j) => finished && j.is_successful(),
            None => false,
        };
        self.apply_job_status(finished, successful)
    }
}

/// When a client's vouchers are settled.
#[derive(Clone, Copy, Debug)]
pub struct SettleConfig {
    /// Below this unsettled sum nothing is settled; smaller than `do_settle_size`.
    pub min_settle_size: u64,
    /// At or above this unsettled sum a settlement is always triggered.
    pub do_settle_size: u64,
    /// At this many unsettled vouchers a settlement is triggered.
    pub max_settle_count: usize,
}

/// The most a settlement may draw, when one is due: `None` when the sum is
/// below the minimum, no trigger fires (risk breach, count, size), or the
/// collateral now is below the minimum.
pub open spec fn settle_limit(c: SettleConfig, expand_risk: int, vendor: VendorId, sum: int, count: int, o: ClientOracleRecord) -> Option<int> {
    if sum < c.min_settle_size {
        None
    } else {
        let to_be = if o.vendors_to_be@.contains(vendor) {
            o.collateral_to_be as int
        } else {
            0
        };
        let cap = safe_cap(to_be, o.subscriptions_now as int, expand_risk);
        let trigger = sum >= cap || count >= c.max_settle_count || sum >= c.do_settle_size;
        if !trigger || o.collateral_now < c.min_settle_size {
            None
        } else {
            Some(min_int(o.collateral_now as int, sum))
        }
    }
}

/// Length of the longest prefix of `s` whose atoms add up to at most `max_settle`.
pub fn settle_prefix_len<V: Voucher>(s: &Vec<V>, max_settle: u64) -> (r: usize)
    ensures
        r <= s@.len(),
        sum_atoms(s@.subrange(0, r as int)) <= max_settle,
        r < s@.len() ==> sum_atoms(s@.subrange(0, r + 1)) > max_settle,
{
    let mut sum: u64 = 0;
    let mut i: usize = 0;
    while i < s.len()
        invariant
            0 <= i <= s@.len(),
            sum == sum_atoms(s@.subrange(0, i as int)),
            sum <= max_settle,
        decreases s@.len() - i,
    {
        let a = s[i].voucher_atoms();
        proof {
            assert(s@.subrange(0, i + 1).drop_last() =~= s@.subrange(0, i as int));
        }
        if a > max_settle - sum {
            return i;
        }
        sum = sum + a;
        i += 1;
    }
    i
}

/// Decides settlements for one vendor.
pub struct CronEngine {
    pub settle: SettleConfig,
    pub vendor: VendorId,
    pub cr: ClientRiskConfig,
}

impl CronEngine {
    pub fn new(settle: SettleConfig, vendor: VendorId, cr: ClientRiskConfig) -> (r: Self)
        ensures
            r.settle == settle,
            r.vendor == vendor,
            r.cr == cr,
    {
        CronEngine { settle, vendor, cr }
    }

    /// How many of the client's leading unsettled vouchers to settle now:
    /// a finished job is cleaned up first; nothing is chosen while a job is
    /// in flight or when no settlement is due.
    pub fn mby_start_settle_job<V: Voucher, J: SettleJob>(&self, x: &mut ClientSettleVouchers<V, J>, o: &ClientOracleRecord) -> (r: Option<usize>)
        ensures
            exists|finished: bool, successful: bool, c: bool| old(x).cleanup_outcome(*final(x), finished, successful, c),
            final(x).job is Some ==> r is None && final(x).job == old(x).job,
            final(x).job is None ==> match settle_limit(
                self.settle,
                self.cr.spec_expand_risk() as int,
                self.vendor,
                min_atoms(sum_atoms(final(x).unsettled_vouchers@)),
                final(x).unsettled_vouchers@.len() as int,
                *o,
            ) {
                None => r is None,
                Some(m) => r is Some && sum_atoms(final(x).unsettled_vouchers@.subrange(0, r->0 as int)) <= m
                    && (r->0 < final(x).unsettled_vouchers@.len() ==> sum_atoms(
                        final(x).unsettled_vouchers@.subrange(0, r->0 + 1),
                    ) > m),
            },
    {
        x.try_cleanup_job();
        if x.job.is_some() {
            return None;
        }
        let unsettled = total_atoms(&x.unsettled_vouchers);
        let count = x.unsettled_vouchers.len();
        if unsettled < self.settle.min_settle_size {
            return None;
        }
        let actual_balance = o.collateral_now();
        let balance_to_be = if o.is_subscribed_to_be(self.vendor) {
            o.collateral_to_be()
        } else {
            0
        };
        let safe_cap_to_be = self.cr.get_client_risk_adj_collateral(balance_to_be, o.subscriptions_now());
        let over_risk = unsettled >= safe_cap_to_be;
        let max_count = count >= self.settle.max_settle_count;
        let over_do_size = unsettled >= self.settle.do_settle_size;
        if !(over_risk || max_count || over_do_size) {
            return None;
        }
        if actual_balance < self.settle.min_settle_size {
            return None;
        }
        let max_settle = if actual_balance <= unsettled {
            actual_balance
        } else {
            unsettled
        };
        Some(settle_prefix_len(&x.unsettled_vouchers, max_settle))
    }
}

} // verus!
