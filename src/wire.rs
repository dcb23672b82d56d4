//! The fixed-layout, big-endian batch wire format: a 30-byte header followed
//! by 109-byte transaction records, decoded in place.
use crate::crypto::{keccak256, keccak_of};
use vstd::prelude::*;

verus! {

/// Value of two big-endian bytes.
pub open spec fn be2(s: Seq<u8>) -> int {
    s[0] * 256 + s[1]
}

/// Value of four big-endian bytes.
pub open spec fn be4(s: Seq<u8>) -> int {
    s[0] * 16777216 + s[1] * 65536 + s[2] * 256 + s[3]
}

/// Value of eight big-endian bytes.
pub open spec fn be8(s: Seq<u8>) -> int {
    be4(s.subrange(0, 4)) * 4294967296 + be4(s.subrange(4, 8))
}

/// The two big-endian bytes of `x`.
pub open spec fn u16_bytes(x: u16) -> Seq<u8> {
    seq![(x / 256) as u8, (x % 256) as u8]
}

/// The four big-endian bytes of `x`.
pub open spec fn u32_bytes(x: u32) -> Seq<u8> {
    seq![
        (x / 16777216) as u8,
        ((x / 65536) % 256) as u8,
        ((x / 256) % 256) as u8,
        (x % 256) as u8,
    ]
}

/// The eight big-endian bytes of `x`.
pub open spec fn u64_bytes(x: u64) -> Seq<u8> {
    u32_bytes((x / 4294967296) as u32) + u32_bytes((x % 4294967296) as u32)
}

/// The two's-complement bit pattern of `x`, read as unsigned.
pub open spec fn twos(x: i64) -> u64 {
    if x >= 0 {
        x as u64
    } else {
        (x + 18446744073709551616) as u64
    }
}

/// The signed value of a two's-complement bit pattern.
pub open spec fn signed_of(u: int) -> int {
    if u < 9223372036854775808 {
        u
    } else {
        u - 18446744073709551616
    }
}

/// The eight big-endian two's-complement bytes of `x`.
pub open spec fn i64_bytes(x: i64) -> Seq<u8> {
    u64_bytes(twos(x))
}

pub proof fn lemma_u16_round_trip(x: u16)
    ensures
        be2(u16_bytes(x)) == x,
        u16_bytes(x).len() == 2,
{
}

pub proof fn lemma_u32_round_trip(x: u32)
    ensures
        be4(u32_bytes(x)) == x,
        u32_bytes(x).len() == 4,
{
    let a = x / 16777216;
    let r = x % 16777216;
    let b = r / 65536;
    assert((x / 65536) % 256 == b) by (nonlinear_arith)
        requires a == x / 16777216, r == x % 16777216, b == r / 65536, x < 4294967296;
    assert((x / 256) % 256 == (r % 65536) / 256) by (nonlinear_arith)
        requires r == x % 16777216, x < 4294967296;
    assert(x % 256 == (r % 65536) % 256) by (nonlinear_arith)
        requires r == x % 16777216;
}

pub proof fn lemma_u64_round_trip(x: u64)
    ensures
        be8(u64_bytes(x)) == x,
        u64_bytes(x).len() == 8,
{
    let hi = (x / 4294967296) as u32;
    let lo = (x % 4294967296) as u32;
    lemma_u32_round_trip(hi);
    lemma_u32_round_trip(lo);
    assert(u64_bytes(x).subrange(0, 4) =~= u32_bytes(hi));
    assert(u64_bytes(x).subrange(4, 8) =~= u32_bytes(lo));
}

pub proof fn lemma_i64_round_trip(x: i64)
    ensures
        signed_of(be8(i64_bytes(x))) == x,
        i64_bytes(x).len() == 8,
{
    lemma_u64_round_trip(twos(x));
}

/// Reads two big-endian bytes.
fn read_u16(b: &[u8], at: usize) -> (r: u16)
    requires
        at + 2 <= b@.len(),
    ensures
        r == be2(b@.subrange(at as int, at + 2)),
{
    (b[at] as u16) * 256 + (b[at + 1] as u16)
}

/// Reads four big-endian bytes.
fn read_u32(b: &[u8], at: usize) -> (r: u32)
    requires
        at + 4 <= b@.len(),
    ensures
        r == be4(b@.subrange(at as int, at + 4)),
{
    (b[at] as u32) * 16777216 + (b[at + 1] as u32) * 65536 + (b[at + 2] as u32) * 256 + (
    b[at + 3] as u32)
}

/// Reads eight big-endian bytes.
fn read_u64(b: &[u8], at: usize) -> (r: u64)
    requires
        at + 8 <= b@.len(),
    ensures
        r == be8(b@.subrange(at as int, at + 8)),
{
    let n = b.len();
    assert(at + 8 <= n);
    let hi = read_u32(b, at) as u64;
    let lo = read_u32(b, at + 4) as u64;
    assert(b@.subrange(at as int, at + 8).subrange(0, 4) =~= b@.subrange(at as int, at + 4));
    assert(b@.subrange(at as int, at + 8).subrange(4, 8) =~= b@.subrange(at + 4, at + 8));
    hi * 4294967296 + lo
}

/// Reads eight big-endian two's-complement bytes.
fn read_i64(b: &[u8], at: usize) -> (r: i64)
    requires
        at + 8 <= b@.len(),
    ensures
        r == signed_of(be8(b@.subrange(at as int, at + 8))),
{
    let u = read_u64(b, at);
    if u < 9223372036854775808 {
        u as i64
    } else {
        let below = (u - 9223372036854775808) as i64;
        below - 9223372036854775807 - 1
    }
}

/// Copies `N` bytes starting at `at` into an array.
fn read_array<const N: usize>(b: &[u8], at: usize) -> (r: [u8; N])
    requires
        at + N <= b@.len(),
    ensures
        r@ == b@.subrange(at as int, at + N),
{
    let mut out = [0u8; N];
    let n = b.len();
    let mut i: usize = 0;
    while i < N
        invariant
            0 <= i <= N,
            at + N <= b@.len(),
            n == b@.len(),
            out@.len() == N,
            forall|j: int| 0 <= j < i ==> out@[j] == b@[at + j],
        decreases N - i,
    {
        out[i] = b[at + i];
        i += 1;
    }
    assert(out@ =~= b@.subrange(at as int, at + N));
    out
}

fn push_u16(out: &mut Vec<u8>, x: u16)
    ensures
        final(out)@ == old(out)@ + u16_bytes(x),
{
    out.push((x / 256) as u8);
    out.push((x % 256) as u8);
    assert(final(out)@ =~= old(out)@ + u16_bytes(x));
}

fn push_u32(out: &mut Vec<u8>, x: u32)
    ensures
        final(out)@ == old(out)@ + u32_bytes(x),
{
    out.push((x / 16777216) as u8);
    out.push(((x / 65536) % 256) as u8);
    out.push(((x / 256) % 256) as u8);
    out.push((x % 256) as u8);
    assert(final(out)@ =~= old(out)@ + u32_bytes(x));
}

fn push_u64(out: &mut Vec<u8>, x: u64)
    ensures
        final(out)@ == old(out)@ + u64_bytes(x),
{
    push_u32(out, (x / 4294967296) as u32);
    push_u32(out, (x % 4294967296) as u32);
    assert(final(out)@ =~= old(out)@ + u64_bytes(x));
}

fn push_i64(out: &mut Vec<u8>, x: i64)
    ensures
        final(out)@ == old(out)@ + i64_bytes(x),
{
    let u: u64 = if x >= 0 {
        x as u64
    } else {
        ((x + 9223372036854775807 + 1) as u64) + 9223372036854775808
    };
    push_u64(out, u);
}

fn push_bytes(out: &mut Vec<u8>, b: &[u8])
    ensures
        final(out)@ == old(out)@ + b@,
{
    let mut i: usize = 0;
    while i < b.len()
        invariant
            0 <= i <= b@.len(),
            out@ == old(out)@ + b@.subrange(0, i as int),
        decreases b@.len() - i,
    {
        out.push(b[i]);
        i += 1;
        assert(out@ =~= old(out)@ + b@.subrange(0, i as int));
    }
    assert(b@.subrange(0, b@.len() as int) =~= b@);
}

/// A transaction record to be written: the payment, its signature over
/// `to ‖ atoms ‖ nonce`, and the two delta-table slots it touches.
#[derive(Clone)]
pub struct TxToSer {
    pub to: [u8; 20],
    /// Signed so that it adds into deltas directly; the engine rejects non-positive values.
    pub atoms: i64,
    pub nonce: u64,
    pub sig_r: [u8; 32],
    pub sig_s: [u8; 32],
    pub v: u8,
    /// Slot of the sender in the delta table.
    pub from_idx: u32,
    /// Slot of the recipient in the delta table.
    pub to_idx: u32,
}

/// The bytes a transaction's signature covers: `to`, then `atoms` and `nonce` big-endian.
pub open spec fn signed_bytes(t: TxToSer) -> Seq<u8> {
    t.to@ + i64_bytes(t.atoms) + u64_bytes(t.nonce)
}

/// The 109-byte record of a transaction.
pub open spec fn tx_bytes(t: TxToSer) -> Seq<u8> {
    signed_bytes(t) + t.sig_r@ + t.sig_s@ + seq![t.v] + u32_bytes(t.from_idx) + u32_bytes(
        t.to_idx,
    )
}

/// The records of a sequence of transactions, one after another.
pub open spec fn txs_bytes(s: Seq<TxToSer>) -> Seq<u8>
    decreases s.len(),
{
    if s.len() == 0 {
        Seq::empty()
    } else {
        txs_bytes(s.drop_last()) + tx_bytes(s.last())
    }
}

impl TxToSer {
    pub const SIZE: usize = 109;

    /// Writes the 109-byte record.
    pub fn ser(&self) -> (r: Vec<u8>)
        ensures
            r@ == tx_bytes(*self),
            r@.len() == Self::SIZE,
    {
        let mut out: Vec<u8> = Vec::new();
        push_bytes(&mut out, self.to.as_slice());
        push_i64(&mut out, self.atoms);
        push_u64(&mut out, self.nonce);
        push_bytes(&mut out, self.sig_r.as_slice());
        push_bytes(&mut out, self.sig_s.as_slice());
        out.push(self.v);
        push_u32(&mut out, self.from_idx);
        push_u32(&mut out, self.to_idx);
        proof {
            lemma_u64_round_trip(twos(self.atoms));
            lemma_u64_round_trip(self.nonce);
            lemma_u32_round_trip(self.from_idx);
            lemma_u32_round_trip(self.to_idx);
        }
        assert(out@ =~= tx_bytes(*self));
        out
    }

    /// The Keccak-256 digest that the transaction's signature covers.
    pub fn keccak(&self) -> (r: [u8; 32])
        ensures
            r@ == keccak_of(signed_bytes(*self)),
    {
        let mut msg: Vec<u8> = Vec::new();
        push_bytes(&mut msg, self.to.as_slice());
        push_i64(&mut msg, self.atoms);
        push_u64(&mut msg, self.nonce);
        assert(msg@ =~= signed_bytes(*self));
        keccak256(msg.as_slice())
    }
}

/// A transaction record read in place from a borrowed buffer.
pub struct Tx<'a> {
    pub v: &'a [u8],
}

/// Recipient address of a record.
pub open spec fn rec_to(b: Seq<u8>) -> Seq<u8> {
    b.subrange(0, 20)
}

/// Amount of a record.
pub open spec fn rec_atoms(b: Seq<u8>) -> int {
    signed_of(be8(b.subrange(20, 28)))
}

/// Sender nonce of a record.
pub open spec fn rec_nonce(b: Seq<u8>) -> int {
    be8(b.subrange(28, 36))
}

/// Signature scalar `r` of a record.
pub open spec fn rec_sig_r(b: Seq<u8>) -> Seq<u8> {
    b.subrange(36, 68)
}

/// Signature scalar `s` of a record.
pub open spec fn rec_sig_s(b: Seq<u8>) -> Seq<u8> {
    b.subrange(68, 100)
}

/// Recovery id of a record.
pub open spec fn rec_v(b: Seq<u8>) -> u8 {
    b[100]
}

/// Sender slot of a record.
pub open spec fn rec_from_idx(b: Seq<u8>) -> int {
    be4(b.subrange(101, 105))
}

/// Recipient slot of a record.
pub open spec fn rec_to_idx(b: Seq<u8>) -> int {
    be4(b.subrange(105, 109))
}

impl<'a> Tx<'a> {
    /// The record holds at least its 109 bytes.
    pub open spec fn wf(&self) -> bool {
        self.v@.len() >= 109
    }

    pub fn to(&self) -> (r: &'a [u8])
        requires
            self.wf(),
        ensures
            r@ == rec_to(self.v@),
    {
        &self.v[0..20]
    }

    pub fn atoms_slice(&self) -> (r: &'a [u8])
        requires
            self.wf(),
        ensures
            r@ == self.v@.subrange(20, 28),
    {
        &self.v[20..28]
    }

    pub fn atoms(&self) -> (r: i64)
        requires
            self.wf(),
        ensures
            r == rec_atoms(self.v@),
    {
        read_i64(self.v, 20)
    }

    pub fn nonce_slice(&self) -> (r: &'a [u8])
        requires
            self.wf(),
        ensures
            r@ == self.v@.subrange(28, 36),
    {
        &self.v[28..36]
    }

    pub fn nonce(&self) -> (r: u64)
        requires
            self.wf(),
        ensures
            r == rec_nonce(self.v@),
    {
        read_u64(self.v, 28)
    }

    pub fn sig_r(&self) -> (r: [u8; 32])
        requires
            self.wf(),
        ensures
            r@ == rec_sig_r(self.v@),
    {
        read_array(self.v, 36)
    }

    pub fn sig_s(&self) -> (r: [u8; 32])
        requires
            self.wf(),
        ensures
            r@ == rec_sig_s(self.v@),
    {
        read_array(self.v, 68)
    }

    pub fn v(&self) -> (r: u8)
        requires
            self.wf(),
        ensures
            r == rec_v(self.v@),
    {
        self.v[100]
    }

    pub fn from_idx(&self) -> (r: u32)
        requires
            self.wf(),
        ensures
            r == rec_from_idx(self.v@),
    {
        read_u32(self.v, 101)
    }

    pub fn to_idx(&self) -> (r: u32)
        requires
            self.wf(),
        ensures
            r == rec_to_idx(self.v@),
    {
        read_u32(self.v, 105)
    }

    /// Writes into `out` the Keccak-256 digest that the signature covers:
    /// the first 36 bytes, `to ‖ atoms ‖ nonce`.
    pub fn keccak(&self, out: &mut [u8; 32])
        requires
            self.wf(),
        ensures
            final(out)@ == keccak_of(self.v@.subrange(0, 36)),
    {
        *out = keccak256(&self.v[0..36]);
    }
}

/// A batch to be written: header fields and the transactions.
pub struct InputToSer {
    pub state_deltas: u32,
    /// Fee charged per transaction.
    pub fee_atoms: u16,
    /// Receiver of the fees; it occupies delta slot 0.
    pub fee_recipient: [u8; 20],
    pub tx: Vec<TxToSer>,
}

/// The 30-byte header of a batch.
pub open spec fn header_bytes(state_deltas: u32, fee_atoms: u16, fee_recipient: Seq<u8>, total_tx: u32) -> Seq<u8> {
    u32_bytes(state_deltas) + u16_bytes(fee_atoms) + fee_recipient + u32_bytes(total_tx)
}

/// The bytes of a whole batch.
pub open spec fn input_bytes(i: InputToSer) -> Seq<u8> {
    header_bytes(i.state_deltas, i.fee_atoms, i.fee_recipient@, i.tx@.len() as u32) + txs_bytes(
        i.tx@,
    )
}

impl InputToSer {
    /// Writes the header, then each transaction record in order.
    pub fn ser(&self) -> (r: Vec<u8>)
        requires
            self.tx@.len() <= u32::MAX,
        ensures
            r@ == input_bytes(*self),
    {
        let mut out: Vec<u8> = Vec::new();
        push_u32(&mut out, self.state_deltas);
        push_u16(&mut out, self.fee_atoms);
        push_bytes(&mut out, self.fee_recipient.as_slice());
        let txs = self.tx.len() as u32;
        push_u32(&mut out, txs);
        let ghost head = out@;
        assert(head =~= header_bytes(self.state_deltas, self.fee_atoms, self.fee_recipient@, txs));
        let mut k: usize = 0;
        while k < self.tx.len()
            invariant
                0 <= k <= self.tx@.len(),
                head == header_bytes(self.state_deltas, self.fee_atoms, self.fee_recipient@, txs),
                txs == self.tx@.len() as u32,
                out@ == head + txs_bytes(self.tx@.subrange(0, k as int)),
            decreases self.tx@.len() - k,
        {
            let rec = self.tx[k].ser();
            push_bytes(&mut out, rec.as_slice());
            proof {
                let pre = self.tx@.subrange(0, k as int);
                let post = self.tx@.subrange(0, k + 1);
                assert(post.drop_last() =~= pre);
                assert(post.last() == self.tx@[k as int]);
            }
            k += 1;
            assert(out@ =~= head + txs_bytes(self.tx@.subrange(0, k as int)));
        }
        assert(self.tx@.subrange(0, k as int) =~= self.tx@);
        out
    }
}

/// A batch read in place: the header and the transaction records of a borrowed buffer.
pub struct Input<'a> {
    /// The whole batch buffer.
    pub v: &'a [u8],
}

/// Number of delta slots declared by a batch header.
pub open spec fn hdr_state_deltas(b: Seq<u8>) -> int {
    be4(b.subrange(0, 4))
}

/// Per-transaction fee declared by a batch header.
pub open spec fn hdr_fee_atoms(b: Seq<u8>) -> int {
    be2(b.subrange(4, 6))
}

/// Fee recipient declared by a batch header.
pub open spec fn hdr_fee_recipient(b: Seq<u8>) -> Seq<u8> {
    b.subrange(6, 26)
}

/// Number of transactions declared by a batch header.
pub open spec fn hdr_total_tx(b: Seq<u8>) -> int {
    be4(b.subrange(26, 30))
}

/// The `i`-th transaction record of a batch.
pub open spec fn record_at(b: Seq<u8>, i: int) -> Seq<u8> {
    b.subrange(30 + i * 109, 30 + (i + 1) * 109)
}

impl<'a> Input<'a> {
    pub const HEADER_SIZE: usize = 30;

    pub fn new(v: &'a [u8]) -> (r: Self)
        ensures
            r.v@ == v@,
    {
        Input { v }
    }

    /// The buffer holds a whole header.
    pub open spec fn has_header(&self) -> bool {
        self.v@.len() >= 30
    }

    pub fn state_deltas(&self) -> (r: u32)
        requires
            self.has_header(),
        ensures
            r == hdr_state_deltas(self.v@),
    {
        read_u32(self.v, 0)
    }

    pub fn fee_atoms(&self) -> (r: u16)
        requires
            self.has_header(),
        ensures
            r == hdr_fee_atoms(self.v@),
    {
        read_u16(self.v, 4)
    }

    pub fn fee_recipient(&self) -> (r: &'a [u8])
        requires
            self.has_header(),
        ensures
            r@ == hdr_fee_recipient(self.v@),
    {
        &self.v[6..26]
    }

    pub fn total_tx(&self) -> (r: u32)
        requires
            self.has_header(),
        ensures
            r == hdr_total_tx(self.v@),
    {
        read_u32(self.v, 26)
    }

    /// A view of the `idx`-th transaction record; nothing is copied.
    pub fn tx_at(&self, idx: u32) -> (r: Tx<'a>)
        requires
            30 + (idx + 1) * 109 <= self.v@.len(),
        ensures
            r.v@ == record_at(self.v@, idx as int),
            r.wf(),
    {
        let n = self.v.len();
        let start = idx as usize * TxToSer::SIZE;
        let end = start + TxToSer::SIZE;
        let region = &self.v[Self::HEADER_SIZE..n];
        assert(region@.subrange(start as int, end as int) =~= record_at(self.v@, idx as int));
        Tx { v: &region[start..end] }
    }
}

/// Each field of a transaction record reads back as it was written.
pub proof fn lemma_tx_round_trip(t: TxToSer)
    ensures
        tx_bytes(t).len() == 109,
        rec_to(tx_bytes(t)) == t.to@,
        rec_atoms(tx_bytes(t)) == t.atoms,
        rec_nonce(tx_bytes(t)) == t.nonce,
        rec_sig_r(tx_bytes(t)) == t.sig_r@,
        rec_sig_s(tx_bytes(t)) == t.sig_s@,
        rec_v(tx_bytes(t)) == t.v,
        rec_from_idx(tx_bytes(t)) == t.from_idx,
        rec_to_idx(tx_bytes(t)) == t.to_idx,
        tx_bytes(t).subrange(0, 36) == signed_bytes(t),
{
    let b = tx_bytes(t);
    lemma_i64_round_trip(t.atoms);
    lemma_u64_round_trip(t.nonce);
    lemma_u32_round_trip(t.from_idx);
    lemma_u32_round_trip(t.to_idx);
    assert(b.subrange(0, 20) =~= t.to@);
    assert(b.subrange(20, 28) =~= i64_bytes(t.atoms));
    assert(b.subrange(28, 36) =~= u64_bytes(t.nonce));
    assert(b.subrange(36, 68) =~= t.sig_r@);
    assert(b.subrange(68, 100) =~= t.sig_s@);
    assert(b.subrange(101, 105) =~= u32_bytes(t.from_idx));
    assert(b.subrange(105, 109) =~= u32_bytes(t.to_idx));
    assert(b.subrange(0, 36) =~= signed_bytes(t));
}

proof fn lemma_tx_len(t: TxToSer)
    ensures
        tx_bytes(t).len() == 109,
{
}

/// The records of a sequence of transactions sit at consecutive 109-byte offsets.
#[verifier::rlimit(40)]
pub proof fn lemma_txs_layout(s: Seq<TxToSer>)
    ensures
        txs_bytes(s).len() == 109 * s.len(),
        forall|k: int|
            0 <= k < s.len() ==> #[trigger] txs_bytes(s).subrange(k * 109, (k + 1) * 109)
                == tx_bytes(s[k]),
    decreases s.len(),
{
    if s.len() > 0 {
        let init = s.drop_last();
        lemma_txs_layout(init);
        lemma_tx_len(s.last());
        let all = txs_bytes(s);
        assert forall|k: int| 0 <= k < s.len() implies #[trigger] all.subrange(
            k * 109,
            (k + 1) * 109,
        ) == tx_bytes(s[k]) by {
            if k < init.len() {
                assert(k * 109 + 109 <= init.len() * 109) by (nonlinear_arith)
                    requires k < init.len();
                assert(all.subrange(k * 109, (k + 1) * 109) =~= txs_bytes(init).subrange(
                    k * 109,
                    (k + 1) * 109,
                ));
                assert(init[k] == s[k]);
            } else {
                assert(all.subrange(k * 109, (k + 1) * 109) =~= tx_bytes(s.last()));
            }
        }
    }
}

/// Decoding a written batch gives back every header field and every
/// transaction record as written.
pub proof fn lemma_input_round_trip(i: InputToSer)
    requires
        i.tx@.len() <= u32::MAX,
    ensures
        input_bytes(i).len() == 30 + 109 * i.tx@.len(),
        hdr_state_deltas(input_bytes(i)) == i.state_deltas,
        hdr_fee_atoms(input_bytes(i)) == i.fee_atoms,
        hdr_fee_recipient(input_bytes(i)) == i.fee_recipient@,
        hdr_total_tx(input_bytes(i)) == i.tx@.len(),
        forall|k: int| 0 <= k < i.tx@.len() ==> #[trigger] record_at(input_bytes(i), k) == tx_bytes(i.tx@[k]),
{
    let b = input_bytes(i);
    let n = i.tx@.len() as u32;
    lemma_u32_round_trip(i.state_deltas);
    lemma_u16_round_trip(i.fee_atoms);
    lemma_u32_round_trip(n);
    lemma_txs_layout(i.tx@);
    assert(b.subrange(0, 4) =~= u32_bytes(i.state_deltas));
    assert(b.subrange(4, 6) =~= u16_bytes(i.fee_atoms));
    assert(b.subrange(6, 26) =~= i.fee_recipient@);
    assert(b.subrange(26, 30) =~= u32_bytes(n));
    assert forall|k: int| 0 <= k < i.tx@.len() implies #[trigger] record_at(b, k) == tx_bytes(i.tx@[k]) by {
        assert(k * 109 + 109 <= i.tx@.len() * 109) by (nonlinear_arith)
            requires k < i.tx@.len();
        assert(record_at(b, k) =~= txs_bytes(i.tx@).subrange(k * 109, (k + 1) * 109));
    }
}

} // verus!
