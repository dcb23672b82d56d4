//! The batch state-delta engine: replays signed transfers into per-slot
//! deltas with a per-sender nonce chain and a per-transaction fee.
use crate::crypto::{keccak_of, recover, signer_address};
use crate::wire::{i64_bytes, u64_bytes, hdr_fee_atoms, hdr_fee_recipient, hdr_state_deltas, hdr_total_tx, rec_atoms, rec_from_idx, rec_nonce, rec_sig_r, rec_sig_s, rec_to, rec_to_idx, rec_v, record_at, Input, Tx};
use vstd::prelude::*;

verus! {

/// Why a batch is rejected; every one of them aborts the whole batch.
#[derive(Clone, Copy, Debug, PartialEq, Eq, Structural)]
pub enum BatchError {
    /// The buffer is shorter than its header declares, declares no slot, or leaves a slot unbound.
    MalformedInput,
    /// A recovery id outside 0..=3.
    InvalidRecoveryId,
    /// No signer could be recovered from a signature.
    InvalidSignature,
    /// A slot was touched with an address other than the one bound to it.
    AddressBindingMismatch,
    /// A sender nonce does not follow the previous one of its slot.
    NonceGap,
    /// A transaction moves no positive amount.
    NonPositiveAtoms,
    /// A transaction's amount does not exceed the fee.
    FeeExceedsAtoms,
    /// A slot index beyond the delta table, or a sender in the fee slot.
    SlotIndexOutOfRange,
    /// A slot's accumulated value leaves the signed 64-bit range.
    ValueOverflow,
}

/// The state of one delta slot while a batch is replayed.
#[derive(Clone, Copy)]
pub struct StateDiff {
    /// Address bound on first touch.
    pub a: Option<[u8; 20]>,
    /// First and last sender nonce, once the slot has sent.
    pub nonces: Option<(u64, u64)>,
    pub v: i64,
}

/// Model of a slot: its address as a byte sequence and its value as an integer.
pub struct DiffView {
    pub a: Option<Seq<u8>>,
    pub nonces: Option<(u64, u64)>,
    pub v: int,
}

impl View for StateDiff {
    type V = DiffView;

    open spec fn view(&self) -> DiffView {
        DiffView {
            a: match self.a {
                Some(x) => Some(x@),
                None => None,
            },
            nonces: self.nonces,
            v: self.v as int,
        }
    }
}

/// One output record of a batch, in slot order.
#[derive(Clone, Copy)]
pub struct StateDelta {
    pub v: [u8; 20],
    /// Set when the slot sent; the chain then checks its nonces.
    pub is_sender: bool,
    pub start_nonce: u64,
    pub end_nonce: u64,
    pub delta: i64,
}

/// Model of an output record.
pub struct DeltaView {
    pub addr: Seq<u8>,
    pub is_sender: bool,
    pub start_nonce: u64,
    pub end_nonce: u64,
    pub delta: int,
}

impl View for StateDelta {
    type V = DeltaView;

    open spec fn view(&self) -> DeltaView {
        DeltaView {
            addr: self.v@,
            is_sender: self.is_sender,
            start_nonce: self.start_nonce,
            end_nonce: self.end_nonce,
            delta: self.delta as int,
        }
    }
}

pub open spec fn slots_view(s: Seq<StateDiff>) -> Seq<DiffView> {
    s.map_values(|d: StateDiff| d@)
}

pub open spec fn deltas_view(s: Seq<StateDelta>) -> Seq<DeltaView> {
    s.map_values(|d: StateDelta| d@)
}

pub open spec fn in_i64(x: int) -> bool {
    i64::MIN <= x <= i64::MAX
}

/// A slot credited with `amount` for `addr`: bound on first touch, else the
/// address must match; the value accumulates and nonces are left alone.
pub open spec fn credited(d: DiffView, addr: Seq<u8>, amount: int) -> Result<DiffView, BatchError> {
    match d.a {
        None => if in_i64(amount) {
            Ok(DiffView { a: Some(addr), nonces: d.nonces, v: amount })
        } else {
            Err(BatchError::ValueOverflow)
        },
        Some(b) => if b != addr {
            Err(BatchError::AddressBindingMismatch)
        } else if in_i64(d.v + amount) {
            Ok(DiffView { a: d.a, nonces: d.nonces, v: d.v + amount })
        } else {
            Err(BatchError::ValueOverflow)
        },
    }
}

/// A slot touched as sender `addr` with `nonce`: bound on first touch with
/// nonces `(nonce, nonce)`; later the address must match and, once nonces are
/// set, `nonce` must follow the last one by exactly one.
pub open spec fn debited(d: DiffView, addr: Seq<u8>, nonce: u64, amount: int) -> Result<DiffView, BatchError> {
    match d.a {
        None => if in_i64(amount) {
            Ok(DiffView { a: Some(addr), nonces: Some((nonce, nonce)), v: amount })
        } else {
            Err(BatchError::ValueOverflow)
        },
        Some(b) => if b != addr {
            Err(BatchError::AddressBindingMismatch)
        } else {
            let ns: Result<(u64, u64), BatchError> = match d.nonces {
                Some((s, e)) => if e + 1 == nonce {
                    Ok((s, nonce))
                } else {
                    Err(BatchError::NonceGap)
                },
                None => Ok((nonce, nonce)),
            };
            match ns {
                Err(e) => Err(e),
                Ok(ns) => if in_i64(d.v + amount) {
                    Ok(DiffView { a: d.a, nonces: Some(ns), v: d.v + amount })
                } else {
                    Err(BatchError::ValueOverflow)
                },
            }
        },
    }
}

/// One transfer from `from` applied to the slots: the sender slot loses
/// `atoms`, the recipient slot gains `atoms - fee`, slot 0 gains `fee`.
pub open spec fn transfer(
    slots: Seq<DiffView>,
    from: Seq<u8>,
    rec: Seq<u8>,
    fee: int,
    fee_recipient: Seq<u8>,
) -> Result<Seq<DiffView>, BatchError> {
    let atoms = rec_atoms(rec);
    let fi = rec_from_idx(rec);
    let ti = rec_to_idx(rec);
    if atoms <= 0 {
        Err(BatchError::NonPositiveAtoms)
    } else if atoms <= fee {
        Err(BatchError::FeeExceedsAtoms)
    } else if fi == 0 || fi >= slots.len() {
        Err(BatchError::SlotIndexOutOfRange)
    } else {
        match debited(slots[fi], from, rec_nonce(rec) as u64, -atoms) {
            Err(e) => Err(e),
            Ok(d1) => {
                let s1 = slots.update(fi, d1);
                if ti >= s1.len() {
                    Err(BatchError::SlotIndexOutOfRange)
                } else {
                    match credited(s1[ti], rec_to(rec), atoms - fee) {
                        Err(e) => Err(e),
                        Ok(d2) => {
                            let s2 = s1.update(ti, d2);
                            match credited(s2[0], fee_recipient, fee) {
                                Err(e) => Err(e),
                                Ok(d3) => Ok(s2.update(0, d3)),
                            }
                        },
                    }
                }
            },
        }
    }
}

/// One transaction record applied: its signer is recovered, then the transfer is made.
pub open spec fn step(slots: Seq<DiffView>, rec: Seq<u8>, fee: int, fee_recipient: Seq<u8>) -> Result<
    Seq<DiffView>,
    BatchError,
> {
    if rec_v(rec) > 3 {
        Err(BatchError::InvalidRecoveryId)
    } else {
        match signer_address(keccak_of(rec.subrange(0, 36)), rec_sig_r(rec), rec_sig_s(rec), rec_v(rec)) {
            None => Err(BatchError::InvalidSignature),
            Some(from) => transfer(slots, from, rec, fee, fee_recipient),
        }
    }
}

/// The slots before any transaction: slot 0 bound to the fee recipient, the rest unbound.
pub open spec fn initial_slots(n: nat, fee_recipient: Seq<u8>) -> Seq<DiffView> {
    Seq::new(
        n,
        |i: int|
            if i == 0 {
                DiffView { a: Some(fee_recipient), nonces: None, v: 0 }
            } else {
                DiffView { a: None, nonces: None, v: 0 }
            },
    )
}

/// The slots after the first `n` transactions of batch `b`.
pub open spec fn run(b: Seq<u8>, n: nat) -> Result<Seq<DiffView>, BatchError>
    decreases n,
{
    if n == 0 {
        Ok(initial_slots(hdr_state_deltas(b) as nat, hdr_fee_recipient(b)))
    } else {
        match run(b, (n - 1) as nat) {
            Err(e) => Err(e),
            Ok(slots) => step(slots, record_at(b, n - 1), hdr_fee_atoms(b), hdr_fee_recipient(b)),
        }
    }
}

/// The output record of a bound slot.
pub open spec fn delta_of(d: DiffView) -> DeltaView {
    match d.nonces {
        Some((s, e)) => DeltaView { addr: d.a.unwrap(), is_sender: true, start_nonce: s, end_nonce: e, delta: d.v },
        None => DeltaView { addr: d.a.unwrap(), is_sender: false, start_nonce: 0, end_nonce: 0, delta: d.v },
    }
}

/// The buffer holds the header and every record it declares, and at least one slot.
pub open spec fn well_framed(b: Seq<u8>) -> bool {
    &&& b.len() >= 30
    &&& hdr_state_deltas(b) >= 1
    &&& b.len() >= 30 + hdr_total_tx(b) * 109
}

/// What a batch yields: the output records in slot order, or why it is rejected.
pub open spec fn batch_result(b: Seq<u8>) -> Result<Seq<DeltaView>, BatchError> {
    if !well_framed(b) {
        Err(BatchError::MalformedInput)
    } else {
        match run(b, hdr_total_tx(b) as nat) {
            Err(e) => Err(e),
            Ok(slots) => if exists|i: int| 0 <= i < slots.len() && slots[i].a is None {
                Err(BatchError::MalformedInput)
            } else {
                Ok(slots.map_values(|d: DiffView| delta_of(d)))
            },
        }
    }
}

fn same_address(a: &[u8; 20], b: &[u8; 20]) -> (r: bool)
    ensures
        r == (a@ == b@),
{
    let mut i: usize = 0;
    while i < 20
        invariant
            0 <= i <= 20,
            forall|j: int| 0 <= j < i ==> a@[j] == b@[j],
        decreases 20 - i,
    {
        if a[i] != b[i] {
            return false;
        }
        i += 1;
    }
    assert(a@ =~= b@);
    true
}

fn checked_sum(a: i64, b: i64) -> (r: Option<i64>)
    ensures
        match r {
            Some(x) => in_i64(a + b) && x == a + b,
            None => !in_i64(a + b),
        },
{
    if b > 0 && a > i64::MAX - b {
        None
    } else if b < 0 && a < i64::MIN - b {
        None
    } else {
        Some(a + b)
    }
}

/// Credits slot `idx` with `atoms_delta` for `addr` (the recipient and fee rule).
fn apply_delta(deltas: &mut Vec<StateDiff>, idx: u32, addr: &[u8; 20], atoms_delta: i64) -> (r: Result<(), BatchError>)
    requires
        idx < old(deltas)@.len(),
    ensures
        final(deltas)@.len() == old(deltas)@.len(),
        match credited(old(deltas)@[idx as int]@, addr@, atoms_delta as int) {
            Ok(d) => r is Ok && slots_view(final(deltas)@) == slots_view(old(deltas)@).update(idx as int, d),
            Err(e) => r == Err::<(), BatchError>(e),
        },
{
    let i = idx as usize;
    let d = deltas[i];
    let nd = match d.a {
        None => StateDiff { a: Some(*addr), nonces: d.nonces, v: atoms_delta },
        Some(b) => {
            if !same_address(&b, addr) {
                return Err(BatchError::AddressBindingMismatch);
            }
            match checked_sum(d.v, atoms_delta) {
                Some(v) => StateDiff { a: d.a, nonces: d.nonces, v },
                None => return Err(BatchError::ValueOverflow),
            }
        },
    };
    deltas.set(i, nd);
    assert(slots_view(deltas@) =~= slots_view(old(deltas)@).update(idx as int, nd@));
    Ok(())
}

/// Debits slot `idx` for sender `addr` at `nonce` (the sender rule).
fn apply_sender_delta(deltas: &mut Vec<StateDiff>, idx: u32, addr: &[u8; 20], nonce: u64, atoms_delta: i64) -> (r: Result<(), BatchError>)
    requires
        idx < old(deltas)@.len(),
    ensures
        final(deltas)@.len() == old(deltas)@.len(),
        match debited(old(deltas)@[idx as int]@, addr@, nonce, atoms_delta as int) {
            Ok(d) => r is Ok && slots_view(final(deltas)@) == slots_view(old(deltas)@).update(idx as int, d),
            Err(e) => r == Err::<(), BatchError>(e),
        },
{
    let i = idx as usize;
    let d = deltas[i];
    let nd = match d.a {
        None => StateDiff { a: Some(*addr), nonces: Some((nonce, nonce)), v: atoms_delta },
        Some(b) => {
            if !same_address(&b, addr) {
                return Err(BatchError::AddressBindingMismatch);
            }
            let ns = match d.nonces {
                Some((start, end)) => {
                    if end == u64::MAX || end + 1 != nonce {
                        return Err(BatchError::NonceGap);
                    }
                    (start, nonce)
                },
                None => (nonce, nonce),
            };
            match checked_sum(d.v, atoms_delta) {
                Some(v) => StateDiff { a: d.a, nonces: Some(ns), v },
                None => return Err(BatchError::ValueOverflow),
            }
        },
    };
    deltas.set(i, nd);
    assert(slots_view(deltas@) =~= slots_view(old(deltas)@).update(idx as int, nd@));
    Ok(())
}

/// Applies one transaction whose signer `from` is already known: the sender
/// slot loses `atoms`, the recipient slot gains `atoms - fee_atoms`, and the
/// fee slot 0 gains `fee_atoms`. On an error the table is left in no defined
/// state, since the batch is then abandoned.
pub fn apply_tx(deltas: &mut Vec<StateDiff>, tx: &Tx, from: &[u8; 20], fee_atoms: u16, fee_recipient: &[u8; 20]) -> (r: Result<(), BatchError>)
    requires
        tx.wf(),
        old(deltas)@.len() >= 1,
    ensures
        final(deltas)@.len() == old(deltas)@.len(),
        match transfer(slots_view(old(deltas)@), from@, tx.v@, fee_atoms as int, fee_recipient@) {
            Ok(s) => r is Ok && slots_view(final(deltas)@) == s,
            Err(e) => r == Err::<(), BatchError>(e),
        },
{
    let fee = fee_atoms as i64;
    let atoms = tx.atoms();
    if atoms <= 0 {
        return Err(BatchError::NonPositiveAtoms);
    }
    if atoms <= fee {
        return Err(BatchError::FeeExceedsAtoms);
    }
    let from_idx = tx.from_idx();
    let to_idx = tx.to_idx();
    let n = deltas.len();
    if from_idx == 0 || from_idx as usize >= n {
        return Err(BatchError::SlotIndexOutOfRange);
    }
    let ghost s0 = slots_view(deltas@);
    assert(s0[from_idx as int] == deltas@[from_idx as int]@);
    apply_sender_delta(deltas, from_idx, from, tx.nonce(), -atoms)?;
    let ghost s1 = slots_view(deltas@);
    if to_idx as usize >= n {
        return Err(BatchError::SlotIndexOutOfRange);
    }
    assert(s1[to_idx as int] == deltas@[to_idx as int]@);
    let to = read_address(tx.to());
    apply_delta(deltas, to_idx, &to, atoms - fee)?;
    let ghost s2 = slots_view(deltas@);
    assert(s2[0] == deltas@[0]@);
    apply_delta(deltas, 0, fee_recipient, fee)
}

fn read_address(b: &[u8]) -> (r: [u8; 20])
    requires
        b@.len() == 20,
    ensures
        r@ == b@,
{
    let mut out = [0u8; 20];
    let mut i: usize = 0;
    while i < 20
        invariant
            0 <= i <= 20,
            b@.len() == 20,
            forall|j: int| 0 <= j < i ==> out@[j] == b@[j],
        decreases 20 - i,
    {
        out[i] = b[i];
        i += 1;
    }
    assert(out@ =~= b@);
    out
}

/// Once the replay has failed, it fails with the same error however many
/// more transactions are considered.
proof fn lemma_run_error_sticks(b: Seq<u8>, n: nat, m: nat, e: BatchError)
    requires
        n <= m,
        run(b, n) == Err::<Seq<DiffView>, BatchError>(e),
    ensures
        run(b, m) == Err::<Seq<DiffView>, BatchError>(e),
    decreases m - n,
{
    if n < m {
        lemma_run_error_sticks(b, n, (m - 1) as nat, e);
    }
}

/// Replays a batch: decodes the header, recovers the signer of each
/// transaction, applies it, and returns one record per slot in slot order.
/// Any breach aborts the batch with its error and no output.
pub fn process_txs(v: &[u8]) -> (r: Result<Vec<StateDelta>, BatchError>)
    ensures
        match batch_result(v@) {
            Ok(ds) => r is Ok && deltas_view(r->Ok_0@) == ds,
            Err(e) => r == Err::<Vec<StateDelta>, BatchError>(e),
        },
{
    let n = v.len();
    if n < Input::HEADER_SIZE {
        return Err(BatchError::MalformedInput);
    }
    let inp = Input::new(v);
    let sdl = inp.state_deltas();
    let total_tx = inp.total_tx();
    if sdl == 0 || (n as u64) < 30 + (total_tx as u64) * 109 {
        return Err(BatchError::MalformedInput);
    }
    let fee_recipient = read_address(inp.fee_recipient());
    let fee_atoms = inp.fee_atoms();
    let ghost fr = hdr_fee_recipient(v@);
    let mut deltas: Vec<StateDiff> = Vec::new();
    deltas.push(StateDiff { a: Some(fee_recipient), nonces: None, v: 0 });
    let mut k: u32 = 1;
    while k < sdl
        invariant
            1 <= k <= sdl,
            fee_recipient@ == fr,
            deltas@.len() == k,
            deltas@[0]@ == (DiffView { a: Some(fr), nonces: None, v: 0 }),
            forall|t: int| 1 <= t < k ==> #[trigger] deltas@[t]@ == (DiffView { a: None, nonces: None, v: 0 }),
        decreases sdl - k,
    {
        deltas.push(StateDiff { a: None, nonces: None, v: 0 });
        k += 1;
    }
    assert(slots_view(deltas@) =~= initial_slots(sdl as nat, fr));
    assert(run(v@, 0) == Ok::<Seq<DiffView>, BatchError>(slots_view(deltas@)));
    let mut i: u32 = 0;
    while i < total_tx
        invariant
            0 <= i <= total_tx,
            total_tx == hdr_total_tx(v@),
            fee_atoms == hdr_fee_atoms(v@),
            fee_recipient@ == fr,
            fr == hdr_fee_recipient(v@),
            inp.v@ == v@,
            well_framed(v@),
            v@.len() >= 30 + total_tx * 109,
            deltas@.len() >= 1,
            run(v@, i as nat) == Ok::<Seq<DiffView>, BatchError>(slots_view(deltas@)),
        decreases total_tx - i,
    {
        assert(30 + (i + 1) * 109 <= v@.len()) by (nonlinear_arith)
            requires i < total_tx, v@.len() >= 30 + total_tx * 109;
        let tx = inp.tx_at(i);
        let ghost rec = record_at(v@, i as int);
        let ghost before = slots_view(deltas@);
        assert(run(v@, (i + 1) as nat) == step(before, rec, hdr_fee_atoms(v@), fr));
        let rid = tx.v();
        if rid > 3 {
            proof { lemma_run_error_sticks(v@, (i + 1) as nat, total_tx as nat, BatchError::InvalidRecoveryId); }
            return Err(BatchError::InvalidRecoveryId);
        }
        let mut digest = [0u8; 32];
        tx.keccak(&mut digest);
        let sig_r = tx.sig_r();
        let sig_s = tx.sig_s();
        let from = match recover(&digest, &sig_r, &sig_s, rid) {
            Some(a) => a,
            None => {
                proof { lemma_run_error_sticks(v@, (i + 1) as nat, total_tx as nat, BatchError::InvalidSignature); }
                return Err(BatchError::InvalidSignature);
            },
        };
        assert(step(before, rec, hdr_fee_atoms(v@), fr) == transfer(before, from@, rec, fee_atoms as int, fr));
        let res = apply_tx(&mut deltas, &tx, &from, fee_atoms, &fee_recipient);
        match res {
            Ok(()) => {},
            Err(e) => {
                proof { lemma_run_error_sticks(v@, (i + 1) as nat, total_tx as nat, e); }
                return Err(e);
            },
        }
        i += 1;
    }
    let ghost slots = slots_view(deltas@);
    let mut out: Vec<StateDelta> = Vec::new();
    let mut j: usize = 0;
    while j < deltas.len()
        invariant
            0 <= j <= deltas@.len(),
            slots == slots_view(deltas@),
            well_framed(v@),
            run(v@, hdr_total_tx(v@) as nat) == Ok::<Seq<DiffView>, BatchError>(slots),
            forall|t: int| 0 <= t < j ==> (#[trigger] slots[t]).a is Some,
            deltas_view(out@) =~= slots.subrange(0, j as int).map_values(|d: DiffView| delta_of(d)),
        decreases deltas@.len() - j,
    {
        let d = deltas[j];
        assert(slots[j as int] == d@);
        let addr = match d.a {
            Some(a) => a,
            None => {
                return Err(BatchError::MalformedInput);
            },
        };
        let rec = match d.nonces {
            Some((start, end)) => StateDelta { v: addr, is_sender: true, start_nonce: start, end_nonce: end, delta: d.v },
            None => StateDelta { v: addr, is_sender: false, start_nonce: 0, end_nonce: 0, delta: d.v },
        };
        assert(rec@ == delta_of(slots[j as int]));
        let ghost prev = out@;
        out.push(rec);
        assert(deltas_view(out@) =~= deltas_view(prev).push(rec@));
        assert(slots.subrange(0, j + 1).map_values(|d: DiffView| delta_of(d)) =~= slots.subrange(0, j as int).map_values(|d: DiffView| delta_of(d)).push(delta_of(slots[j as int])));
        j += 1;
        assert(deltas_view(out@) =~= slots.subrange(0, j as int).map_values(|d: DiffView| delta_of(d)));
    }
    assert(slots.subrange(0, j as int) =~= slots);
    Ok(out)
}

/// Sum of the values of a table of slots.
pub open spec fn total_value(s: Seq<DiffView>) -> int
    decreases s.len(),
{
    if s.len() == 0 {
        0
    } else {
        total_value(s.drop_last()) + s.last().v
    }
}

/// Sum of the deltas of a batch's output.
pub open spec fn total_delta(s: Seq<DeltaView>) -> int
    decreases s.len(),
{
    if s.len() == 0 {
        0
    } else {
        total_delta(s.drop_last()) + s.last().delta
    }
}

/// A slot not yet bound holds no value and no nonces.
pub open spec fn unbound_are_zero(s: Seq<DiffView>) -> bool {
    forall|i: int| 0 <= i < s.len() && (#[trigger] s[i]).a is None ==> s[i].v == 0 && s[i].nonces is None
}

proof fn lemma_total_update(s: Seq<DiffView>, i: int, d: DiffView)
    requires
        0 <= i < s.len(),
    ensures
        total_value(s.update(i, d)) == total_value(s) - s[i].v + d.v,
    decreases s.len(),
{
    let u = s.update(i, d);
    if i == s.len() - 1 {
        assert(u.drop_last() =~= s.drop_last());
    } else {
        assert(u.drop_last() =~= s.drop_last().update(i, d));
        lemma_total_update(s.drop_last(), i, d);
    }
}

proof fn lemma_total_initial(n: nat, fr: Seq<u8>)
    ensures
        total_value(initial_slots(n, fr)) == 0,
        unbound_are_zero(initial_slots(n, fr)),
    decreases n,
{
    if n > 0 {
        assert(initial_slots(n, fr).drop_last() =~= initial_slots((n - 1) as nat, fr));
        lemma_total_initial((n - 1) as nat, fr);
    }
}

proof fn lemma_update_keeps_unbound_zero(s: Seq<DiffView>, i: int, d: DiffView)
    requires
        unbound_are_zero(s),
        0 <= i < s.len(),
        d.a is Some,
    ensures
        unbound_are_zero(s.update(i, d)),
{
    let u = s.update(i, d);
    assert forall|j: int| 0 <= j < u.len() && (#[trigger] u[j]).a is None implies u[j].v == 0 && u[j].nonces is None by {
        assert(j != i);
        assert(u[j] == s[j]);
    }
}

/// A transfer moves value between slots and creates none: the sender loses
/// `atoms`, the recipient and the fee slot gain `atoms - fee` and `fee`.
proof fn lemma_transfer_conserves(slots: Seq<DiffView>, from: Seq<u8>, rec: Seq<u8>, fee: int, fr: Seq<u8>)
    requires
        unbound_are_zero(slots),
        transfer(slots, from, rec, fee, fr) is Ok,
    ensures
        total_value(transfer(slots, from, rec, fee, fr)->Ok_0) == total_value(slots),
        unbound_are_zero(transfer(slots, from, rec, fee, fr)->Ok_0),
        transfer(slots, from, rec, fee, fr)->Ok_0.len() == slots.len(),
{
    let atoms = rec_atoms(rec);
    let fi = rec_from_idx(rec);
    let ti = rec_to_idx(rec);
    let d1 = debited(slots[fi], from, rec_nonce(rec) as u64, -atoms)->Ok_0;
    let s1 = slots.update(fi, d1);
    lemma_total_update(slots, fi, d1);
    lemma_update_keeps_unbound_zero(slots, fi, d1);
    let d2 = credited(s1[ti], rec_to(rec), atoms - fee)->Ok_0;
    let s2 = s1.update(ti, d2);
    lemma_total_update(s1, ti, d2);
    lemma_update_keeps_unbound_zero(s1, ti, d2);
    let d3 = credited(s2[0], fr, fee)->Ok_0;
    lemma_total_update(s2, 0, d3);
    lemma_update_keeps_unbound_zero(s2, 0, d3);
}

proof fn lemma_run_conserves(b: Seq<u8>, n: nat)
    requires
        run(b, n) is Ok,
    ensures
        total_value(run(b, n)->Ok_0) == 0,
        unbound_are_zero(run(b, n)->Ok_0),
    decreases n,
{
    if n == 0 {
        lemma_total_initial(hdr_state_deltas(b) as nat, hdr_fee_recipient(b));
    } else {
        lemma_run_conserves(b, (n - 1) as nat);
        let slots = run(b, (n - 1) as nat)->Ok_0;
        let rec = record_at(b, n - 1);
        let from = signer_address(keccak_of(rec.subrange(0, 36)), rec_sig_r(rec), rec_sig_s(rec), rec_v(rec))->Some_0;
        lemma_transfer_conserves(slots, from, rec, hdr_fee_atoms(b), hdr_fee_recipient(b));
    }
}

proof fn lemma_total_delta_of(s: Seq<DiffView>)
    ensures
        total_delta(s.map_values(|d: DiffView| delta_of(d))) == total_value(s),
    decreases s.len(),
{
    if s.len() > 0 {
        assert(s.map_values(|d: DiffView| delta_of(d)).drop_last() =~= s.drop_last().map_values(|d: DiffView| delta_of(d)));
        lemma_total_delta_of(s.drop_last());
    }
}

/// Value is conserved: the deltas of every accepted batch add up to zero,
/// fees only moving value into slot 0.
pub proof fn lemma_batch_conserves_value(b: Seq<u8>)
    requires
        batch_result(b) is Ok,
    ensures
        total_delta(batch_result(b)->Ok_0) == 0,
{
    let slots = run(b, hdr_total_tx(b) as nat)->Ok_0;
    lemma_run_conserves(b, hdr_total_tx(b) as nat);
    lemma_total_delta_of(slots);
}

proof fn lemma_transfer_fee(slots: Seq<DiffView>, from: Seq<u8>, rec: Seq<u8>, fee: int, fr: Seq<u8>)
    requires
        transfer(slots, from, rec, fee, fr) is Ok,
        rec_to_idx(rec) != 0,
        slots.len() >= 1,
        slots[0].a is Some,
    ensures
        transfer(slots, from, rec, fee, fr)->Ok_0.len() == slots.len(),
        transfer(slots, from, rec, fee, fr)->Ok_0[0].v == slots[0].v + fee,
        transfer(slots, from, rec, fee, fr)->Ok_0[0].a == slots[0].a,
        transfer(slots, from, rec, fee, fr)->Ok_0[0].nonces == slots[0].nonces,
{
    let atoms = rec_atoms(rec);
    let fi = rec_from_idx(rec);
    let ti = rec_to_idx(rec);
    let d1 = debited(slots[fi], from, rec_nonce(rec) as u64, -atoms)->Ok_0;
    let s1 = slots.update(fi, d1);
    let d2 = credited(s1[ti], rec_to(rec), atoms - fee)->Ok_0;
    let s2 = s1.update(ti, d2);
    assert(s1[0] == slots[0]);
    assert(s2[0] == slots[0]);
}

proof fn lemma_run_fee(b: Seq<u8>, n: nat)
    requires
        run(b, n) is Ok,
        hdr_state_deltas(b) >= 1,
        forall|k: int| 0 <= k < n ==> rec_to_idx(#[trigger] record_at(b, k)) != 0,
    ensures
        run(b, n)->Ok_0.len() == hdr_state_deltas(b),
        run(b, n)->Ok_0[0].v == n * hdr_fee_atoms(b),
        run(b, n)->Ok_0[0].a == Some(hdr_fee_recipient(b)),
        run(b, n)->Ok_0[0].nonces is None,
    decreases n,
{
    if n > 0 {
        lemma_run_fee(b, (n - 1) as nat);
        let slots = run(b, (n - 1) as nat)->Ok_0;
        let rec = record_at(b, n - 1);
        let from = signer_address(keccak_of(rec.subrange(0, 36)), rec_sig_r(rec), rec_sig_s(rec), rec_v(rec))->Some_0;
        assert(rec_to_idx(record_at(b, n - 1)) != 0);
        lemma_transfer_fee(slots, from, rec, hdr_fee_atoms(b), hdr_fee_recipient(b));
        let f = hdr_fee_atoms(b);
        assert((n - 1) * f + f == n * f) by (nonlinear_arith);
    }
}

/// Fee accounting: in a batch of `T` transactions with fee `f`, none of which
/// pays slot 0 as its recipient, slot 0 ends with exactly `T * f`.
pub proof fn lemma_fee_accounting(b: Seq<u8>)
    requires
        batch_result(b) is Ok,
        forall|k: int| 0 <= k < hdr_total_tx(b) ==> rec_to_idx(#[trigger] record_at(b, k)) != 0,
    ensures
        batch_result(b)->Ok_0[0].delta == hdr_total_tx(b) * hdr_fee_atoms(b),
        batch_result(b)->Ok_0[0].addr == hdr_fee_recipient(b),
        !batch_result(b)->Ok_0[0].is_sender,
{
    lemma_run_fee(b, hdr_total_tx(b) as nat);
}

/// A 32-byte ABI word holding the unsigned `x`.
pub open spec fn word_u64(x: u64) -> Seq<u8> {
    Seq::new(24, |i: int| 0u8) + u64_bytes(x)
}

/// A 32-byte ABI word holding the signed `x`, sign-extended.
pub open spec fn word_i64(x: i64) -> Seq<u8> {
    Seq::new(24, |i: int| if x < 0 { 0xffu8 } else { 0u8 }) + i64_bytes(x)
}

/// A 32-byte ABI word holding a 20-byte address, left-padded with zeros.
pub open spec fn word_address(a: Seq<u8>) -> Seq<u8> {
    Seq::new(12, |i: int| 0u8) + a
}

/// The five words of one output record: address, sender flag, the two nonces, the delta.
pub open spec fn abi_record(d: DeltaView) -> Seq<u8> {
    word_address(d.addr) + word_u64(if d.is_sender { 1 } else { 0 }) + word_u64(d.start_nonce) + word_u64(
        d.end_nonce,
    ) + word_i64(d.delta as i64)
}

/// The records' words, one record after another.
pub open spec fn abi_records(s: Seq<DeltaView>) -> Seq<u8>
    decreases s.len(),
{
    if s.len() == 0 {
        Seq::empty()
    } else {
        abi_records(s.drop_last()) + abi_record(s.last())
    }
}

/// The contract-ABI encoding of `PublicValuesStruct { StateDelta[] n }`: the
/// offset of the struct, the offset of its array, the array's length, then
/// the records' words.
pub open spec fn abi_encoding(s: Seq<DeltaView>) -> Seq<u8> {
    word_u64(32) + word_u64(32) + word_u64(s.len() as u64) + abi_records(s)
}

proof fn lemma_word_len(x: u64, y: i64, a: Seq<u8>)
    ensures
        word_u64(x).len() == 32,
        word_i64(y).len() == 32,
        a.len() == 20 ==> word_address(a).len() == 32,
{
    crate::wire::lemma_u64_round_trip(x);
    crate::wire::lemma_i64_round_trip(y);
}

proof fn lemma_record_len(d: DeltaView)
    requires
        d.addr.len() == 20,
    ensures
        abi_record(d).len() == 160,
{
    lemma_word_len(if d.is_sender { 1 } else { 0 }, d.delta as i64, d.addr);
    lemma_word_len(d.start_nonce, 0, d.addr);
    lemma_word_len(d.end_nonce, 0, d.addr);
}

proof fn lemma_abi_len(s: Seq<DeltaView>)
    requires
        forall|i: int| 0 <= i < s.len() ==> (#[trigger] s[i]).addr.len() == 20,
    ensures
        abi_records(s).len() == 160 * s.len(),
    decreases s.len(),
{
    if s.len() > 0 {
        lemma_abi_len(s.drop_last());
        lemma_record_len(s.last());
    }
}

/// Relies on alloy_sol_types' `SolValue::abi_encode` on the one-element tuple
/// `(Vec<(Address, bool, u64, u64, i64)>,)`: the standard contract ABI of a
/// dynamic tuple holding a dynamic array of static tuples, which is also that
/// of `PublicValuesStruct { StateDelta[] n }`.
#[verifier::external_body]
fn abi_encode_deltas(d: &Vec<StateDelta>) -> (r: Vec<u8>)
    ensures
        r@ == abi_encoding(deltas_view(d@)),
{
    let rows: Vec<(alloy_sol_types::private::Address, bool, u64, u64, i64)> = d.iter().map(
        |x| (alloy_sol_types::private::Address::from(x.v), x.is_sender, x.start_nonce, x.end_nonce, x.delta),
    ).collect();
    alloy_sol_types::SolValue::abi_encode(&(rows,))
}

/// Length of the prefix the host zk runtime writes before the batch.
pub const HOST_PREFIX: usize = 8;

/// Replays a batch as the host hands it over: the first 8 bytes are the
/// runtime's own and are skipped.
pub fn process_host_input(inp: &[u8]) -> (r: Result<Vec<StateDelta>, BatchError>)
    ensures
        inp@.len() < 8 ==> r == Err::<Vec<StateDelta>, BatchError>(BatchError::MalformedInput),
        inp@.len() >= 8 ==> match batch_result(inp@.subrange(8, inp@.len() as int)) {
            Ok(ds) => r is Ok && deltas_view(r->Ok_0@) == ds,
            Err(e) => r == Err::<Vec<StateDelta>, BatchError>(e),
        },
{
    let n = inp.len();
    if n < HOST_PREFIX {
        return Err(BatchError::MalformedInput);
    }
    process_txs(&inp[HOST_PREFIX..n])
}

/// The public values a batch commits to: the ABI encoding of its output records.
pub fn public_values(inp: &[u8]) -> (r: Result<Vec<u8>, BatchError>)
    ensures
        inp@.len() < 8 ==> r == Err::<Vec<u8>, BatchError>(BatchError::MalformedInput),
        inp@.len() >= 8 ==> match batch_result(inp@.subrange(8, inp@.len() as int)) {
            Ok(ds) => r is Ok && r->Ok_0@ == abi_encoding(ds) && r->Ok_0@.len() == 96 + 160 * ds.len(),
            Err(e) => r == Err::<Vec<u8>, BatchError>(e),
        },
{
    let deltas = process_host_input(inp)?;
    proof {
        let dv = deltas_view(deltas@);
        assert forall|i: int| 0 <= i < dv.len() implies (#[trigger] dv[i]).addr.len() == 20 by {
            assert(dv[i] == deltas@[i]@);
        }
        lemma_abi_len(dv);
        lemma_word_len(32, 0, Seq::empty());
        lemma_word_len(dv.len() as u64, 0, Seq::empty());
    }
    Ok(abi_encode_deltas(&deltas))
}

/// Nonces of the transactions among the first `n` of batch `b` that send
/// from slot `i`, in batch order.
pub open spec fn sender_nonces(b: Seq<u8>, n: nat, i: int) -> Seq<u64>
    decreases n,
{
    if n == 0 {
        Seq::empty()
    } else {
        let rec = record_at(b, n - 1);
        if rec_from_idx(rec) == i {
            sender_nonces(b, (n - 1) as nat, i).push(rec_nonce(rec) as u64)
        } else {
            sender_nonces(b, (n - 1) as nat, i)
        }
    }
}

/// The nonces of `ns` climb by exactly one from each to the next.
pub open spec fn plus_one_chain(ns: Seq<u64>) -> bool {
    forall|k: int| 0 <= k < ns.len() - 1 ==> #[trigger] ns[k + 1] == ns[k] + 1
}

/// What the nonces of a slot say of the sender nonces seen in it: none when
/// unset; else a +1 chain from the start nonce to the end nonce.
pub open spec fn nonces_match(d: DiffView, ns: Seq<u64>) -> bool {
    match d.nonces {
        None => ns.len() == 0,
        Some((start, end)) => ns.len() > 0 && ns[0] == start && ns.last() == end && plus_one_chain(ns),
    }
}

proof fn lemma_transfer_nonces(slots: Seq<DiffView>, from: Seq<u8>, rec: Seq<u8>, fee: int, fr: Seq<u8>)
    requires
        unbound_are_zero(slots),
        transfer(slots, from, rec, fee, fr) is Ok,
    ensures
        ({
            let out = transfer(slots, from, rec, fee, fr)->Ok_0;
            let fi = rec_from_idx(rec);
            let n = rec_nonce(rec) as u64;
            &&& out.len() == slots.len()
            &&& forall|j: int| 0 <= j < slots.len() && j != fi ==> (#[trigger] out[j]).nonces == slots[j].nonces
            &&& out[fi].nonces == match slots[fi].nonces {
                None => Some((n, n)),
                Some((s, e)) => Some((s, n)),
            }
            &&& (slots[fi].nonces matches Some((s, e)) ==> e + 1 == n)
        }),
{
    let atoms = rec_atoms(rec);
    let fi = rec_from_idx(rec);
    let ti = rec_to_idx(rec);
    let d1 = debited(slots[fi], from, rec_nonce(rec) as u64, -atoms)->Ok_0;
    let s1 = slots.update(fi, d1);
    let d2 = credited(s1[ti], rec_to(rec), atoms - fee)->Ok_0;
    let s2 = s1.update(ti, d2);
    let d3 = credited(s2[0], fr, fee)->Ok_0;
    let out = s2.update(0, d3);
    assert forall|j: int| 0 <= j < slots.len() implies (#[trigger] out[j]).nonces == s1[j].nonces by {
        if j == 0 {
            assert(out[j].nonces == s2[0].nonces);
        }
        if j == ti {
            assert(s2[j].nonces == s1[ti].nonces);
        }
    }
}

proof fn lemma_run_nonces(b: Seq<u8>, n: nat)
    requires
        run(b, n) is Ok,
    ensures
        forall|i: int|
            0 <= i < run(b, n)->Ok_0.len() ==> nonces_match(#[trigger] run(b, n)->Ok_0[i], sender_nonces(b, n, i)),
    decreases n,
{
    if n > 0 {
        lemma_run_nonces(b, (n - 1) as nat);
        lemma_run_conserves(b, (n - 1) as nat);
        let slots = run(b, (n - 1) as nat)->Ok_0;
        let rec = record_at(b, n - 1);
        let from = signer_address(keccak_of(rec.subrange(0, 36)), rec_sig_r(rec), rec_sig_s(rec), rec_v(rec))->Some_0;
        lemma_transfer_nonces(slots, from, rec, hdr_fee_atoms(b), hdr_fee_recipient(b));
        let out = run(b, n)->Ok_0;
        let fi = rec_from_idx(rec);
        assert forall|i: int| 0 <= i < out.len() implies nonces_match(#[trigger] out[i], sender_nonces(b, n, i)) by {
            assert(nonces_match(slots[i], sender_nonces(b, (n - 1) as nat, i)));
            if i == fi {
                let prev = sender_nonces(b, (n - 1) as nat, i);
                let ns = sender_nonces(b, n, i);
                assert(ns == prev.push(rec_nonce(rec) as u64));
                assert forall|k: int| 0 <= k < ns.len() - 1 implies #[trigger] ns[k + 1] == ns[k] + 1 by {
                    if k + 1 < prev.len() {
                        assert(prev[k + 1] == prev[k] + 1);
                    }
                }
            }
        }
    }
}

/// Per-sender nonce chain: in every slot of an accepted batch, the nonces of
/// the transactions sent from that slot climb by exactly one, the first is the
/// slot's start nonce and the last its end nonce; a slot that never sent is
/// not marked as sender.
pub proof fn lemma_sender_nonce_chain(b: Seq<u8>, i: int)
    requires
        batch_result(b) is Ok,
        0 <= i < batch_result(b)->Ok_0.len(),
    ensures
        ({
            let d = batch_result(b)->Ok_0[i];
            let ns = sender_nonces(b, hdr_total_tx(b) as nat, i);
            &&& d.is_sender <==> ns.len() > 0
            &&& d.is_sender ==> ns[0] == d.start_nonce && ns.last() == d.end_nonce && plus_one_chain(ns)
        }),
{
    lemma_run_nonces(b, hdr_total_tx(b) as nat);
    let slots = run(b, hdr_total_tx(b) as nat)->Ok_0;
    assert(nonces_match(slots[i], sender_nonces(b, hdr_total_tx(b) as nat, i)));
}

/// Two transfers from one signer to one recipient with nonces `n` and `n + 1`,
/// through slots 1 and 2 of a three-slot batch, are accepted when their
/// amounts exceed the fee and add up within the signed 64-bit range: the
/// sender slot runs from `n` to `n + 1` and loses both amounts, the recipient
/// gains both less the fees, and slot 0 gains both fees.
pub proof fn lemma_two_step_chain(b: Seq<u8>, sender: Seq<u8>, n: u64)
    requires
        well_framed(b),
        hdr_state_deltas(b) == 3,
        hdr_total_tx(b) == 2,
        n < u64::MAX,
        forall|k: int|
            0 <= k < 2 ==> {
                let rec = #[trigger] record_at(b, k);
                &&& rec_v(rec) <= 3
                &&& signer_address(keccak_of(rec.subrange(0, 36)), rec_sig_r(rec), rec_sig_s(rec), rec_v(rec))
                    == Some(sender)
                &&& rec_from_idx(rec) == 1
                &&& rec_to_idx(rec) == 2
                &&& rec_atoms(rec) > hdr_fee_atoms(b)
                &&& rec_nonce(rec) == n + k
            },
        rec_to(record_at(b, 0)) == rec_to(record_at(b, 1)),
        rec_atoms(record_at(b, 0)) + rec_atoms(record_at(b, 1)) <= i64::MAX,
    ensures
        batch_result(b) is Ok,
        ({
            let d = batch_result(b)->Ok_0;
            let a0 = rec_atoms(record_at(b, 0));
            let a1 = rec_atoms(record_at(b, 1));
            let f = hdr_fee_atoms(b);
            &&& d.len() == 3
            &&& d[1].is_sender && d[1].start_nonce == n && d[1].end_nonce == n + 1
            &&& d[1].addr == sender
            &&& d[1].delta == -(a0 + a1)
            &&& d[2].delta == (a0 - f) + (a1 - f)
            &&& !d[2].is_sender
            &&& d[0].delta == 2 * f
        }),
{
    let r0 = record_at(b, 0);
    let r1 = record_at(b, 1);
    assert(rec_v(r0) <= 3 && rec_from_idx(r0) == 1);
    assert(rec_v(r1) <= 3 && rec_from_idx(r1) == 1);
    let f = hdr_fee_atoms(b);
    let fr = hdr_fee_recipient(b);
    let s0 = initial_slots(3, fr);
    assert(run(b, 0) == Ok::<Seq<DiffView>, BatchError>(s0));
    assert(run(b, 1) == step(s0, r0, f, fr));
    assert(step(s0, r0, f, fr) == transfer(s0, sender, r0, f, fr));
    let s1 = transfer(s0, sender, r0, f, fr)->Ok_0;
    assert(transfer(s0, sender, r0, f, fr) is Ok);
    assert(run(b, 2) == step(s1, r1, f, fr));
    assert(step(s1, r1, f, fr) == transfer(s1, sender, r1, f, fr));
    assert(transfer(s1, sender, r1, f, fr) is Ok);
    let s2 = transfer(s1, sender, r1, f, fr)->Ok_0;
    assert(forall|i: int| 0 <= i < s2.len() ==> (#[trigger] s2[i]).a is Some);
}

} // verus!
