use k256::ecdsa::SigningKey;
use micropay::bsde::{process_host_input, process_txs, public_values, BatchError, StateDelta};
use micropay::crypto::pubk_to_adr;
use micropay::wire::{InputToSer, TxToSer};

struct Acc {
    sk: SigningKey,
    addr: [u8; 20],
}

fn acc(seed: u8) -> Acc {
    let sk = SigningKey::from_bytes(&[seed; 32].into()).unwrap();
    let pk = sk.verifying_key().to_encoded_point(false);
    let addr = pubk_to_adr(pk.as_bytes());
    Acc { sk, addr }
}

fn signed(from: &Acc, to: [u8; 20], atoms: i64, nonce: u64, from_idx: u32, to_idx: u32) -> TxToSer {
    let mut tx = TxToSer {
        to,
        atoms,
        nonce,
        sig_r: [0; 32],
        sig_s: [0; 32],
        v: 0,
        from_idx,
        to_idx,
    };
    let digest = tx.keccak();
    let (sig, rid) = from.sk.sign_prehash_recoverable(&digest).unwrap();
    let b = sig.to_bytes();
    tx.sig_r.copy_from_slice(&b[..32]);
    tx.sig_s.copy_from_slice(&b[32..]);
    tx.v = rid.to_byte();
    tx
}

fn batch(state_deltas: u32, fee_atoms: u16, fee_recipient: [u8; 20], tx: Vec<TxToSer>) -> Vec<u8> {
    InputToSer { state_deltas, fee_atoms, fee_recipient, tx }.ser()
}

fn run(bytes: &[u8]) -> Vec<StateDelta> {
    match process_txs(bytes) {
        Ok(d) => d,
        Err(e) => panic!("batch rejected: {:?}", e),
    }
}

fn err(bytes: &[u8]) -> Option<BatchError> {
    process_txs(bytes).err()
}

#[test]
fn single_tx_no_fee() {
    let alice = acc(1);
    let bob = acc(2);
    let sink = acc(9);
    let tx = signed(&alice, bob.addr, 100, 7, 1, 2);
    let d = run(&batch(3, 0, sink.addr, vec![tx]));
    assert_eq!(d.len(), 3);
    assert_eq!(d[0].v, sink.addr);
    assert_eq!(d[0].delta, 0);
    assert!(!d[0].is_sender);
    assert_eq!(d[1].v, alice.addr);
    assert_eq!(d[1].delta, -100);
    assert!(d[1].is_sender);
    assert_eq!(d[1].start_nonce, 7);
    assert_eq!(d[1].end_nonce, 7);
    assert_eq!(d[2].v, bob.addr);
    assert_eq!(d[2].delta, 100);
    assert!(!d[2].is_sender);
    assert_eq!(d[2].start_nonce, 0);
    assert_eq!(d[2].end_nonce, 0);
}

#[test]
fn fee_split() {
    let alice = acc(1);
    let bob = acc(2);
    let sink = acc(9);
    let tx = signed(&alice, bob.addr, 100, 0, 1, 2);
    let d = run(&batch(3, 2, sink.addr, vec![tx]));
    assert_eq!(d[0].delta, 2);
    assert_eq!(d[1].delta, -100);
    assert_eq!(d[2].delta, 98);
    assert_eq!(d.iter().map(|x| x.delta).sum::<i64>(), 0);
}

#[test]
fn sender_nonce_chain_accepted() {
    let alice = acc(1);
    let bob = acc(2);
    let sink = acc(9);
    let t1 = signed(&alice, bob.addr, 50, 5, 1, 2);
    let t2 = signed(&alice, bob.addr, 60, 6, 1, 2);
    let d = run(&batch(3, 1, sink.addr, vec![t1, t2]));
    assert!(d[1].is_sender);
    assert_eq!(d[1].start_nonce, 5);
    assert_eq!(d[1].end_nonce, 6);
    assert_eq!(d[1].delta, -110);
    assert_eq!(d[2].delta, 108);
    assert_eq!(d[0].delta, 2);
}

#[test]
fn sender_nonce_gap_rejected() {
    let alice = acc(1);
    let bob = acc(2);
    let sink = acc(9);
    let t1 = signed(&alice, bob.addr, 50, 5, 1, 2);
    let t2 = signed(&alice, bob.addr, 60, 7, 1, 2);
    assert_eq!(err(&batch(3, 1, sink.addr, vec![t1, t2])), Some(BatchError::NonceGap));
}

#[test]
fn recipient_later_sends() {
    let alice = acc(1);
    let bob = acc(2);
    let sink = acc(9);
    let t1 = signed(&alice, bob.addr, 50, 3, 1, 2);
    let t2 = signed(&bob, alice.addr, 20, 11, 2, 1);
    let d = run(&batch(3, 0, sink.addr, vec![t1, t2]));
    assert_eq!(d[1].delta, -30);
    assert_eq!((d[1].start_nonce, d[1].end_nonce), (3, 3));
    assert_eq!(d[2].delta, 30);
    assert!(d[2].is_sender);
    assert_eq!((d[2].start_nonce, d[2].end_nonce), (11, 11));
}

#[test]
fn fees_accumulate_per_tx() {
    let alice = acc(1);
    let bob = acc(2);
    let carol = acc(3);
    let sink = acc(9);
    let t1 = signed(&alice, bob.addr, 100, 0, 1, 2);
    let t2 = signed(&alice, carol.addr, 200, 1, 1, 3);
    let t3 = signed(&bob, carol.addr, 30, 0, 2, 3);
    let d = run(&batch(4, 5, sink.addr, vec![t1, t2, t3]));
    assert_eq!(d[0].delta, 15);
    assert_eq!(d[1].delta, -300);
    assert_eq!(d[2].delta, 95 - 30);
    assert_eq!(d[3].delta, 195 + 25);
    assert_eq!(d.iter().map(|x| x.delta).sum::<i64>(), 0);
}

#[test]
fn same_input_gives_same_output() {
    let alice = acc(1);
    let bob = acc(2);
    let sink = acc(9);
    let bytes = batch(3, 1, sink.addr, vec![signed(&alice, bob.addr, 10, 0, 1, 2)]);
    let a = run(&bytes);
    let b = run(&bytes);
    for (x, y) in a.iter().zip(b.iter()) {
        assert_eq!(x.v, y.v);
        assert_eq!(x.delta, y.delta);
        assert_eq!(x.is_sender, y.is_sender);
        assert_eq!((x.start_nonce, x.end_nonce), (y.start_nonce, y.end_nonce));
    }
}

#[test]
fn fee_equal_to_atoms_rejected() {
    let alice = acc(1);
    let bob = acc(2);
    let sink = acc(9);
    let tx = signed(&alice, bob.addr, 2, 0, 1, 2);
    assert_eq!(err(&batch(3, 2, sink.addr, vec![tx])), Some(BatchError::FeeExceedsAtoms));
}

#[test]
fn non_positive_atoms_rejected() {
    let alice = acc(1);
    let bob = acc(2);
    let sink = acc(9);
    let tx = signed(&alice, bob.addr, 0, 0, 1, 2);
    assert_eq!(err(&batch(3, 0, sink.addr, vec![tx])), Some(BatchError::NonPositiveAtoms));
    let tx = signed(&alice, bob.addr, -5, 0, 1, 2);
    assert_eq!(err(&batch(3, 0, sink.addr, vec![tx])), Some(BatchError::NonPositiveAtoms));
}

#[test]
fn slot_out_of_range_rejected() {
    let alice = acc(1);
    let bob = acc(2);
    let sink = acc(9);
    let tx = signed(&alice, bob.addr, 10, 0, 1, 3);
    assert_eq!(err(&batch(3, 0, sink.addr, vec![tx])), Some(BatchError::SlotIndexOutOfRange));
    let tx = signed(&alice, bob.addr, 10, 0, 0, 2);
    assert_eq!(err(&batch(3, 0, sink.addr, vec![tx])), Some(BatchError::SlotIndexOutOfRange));
}

#[test]
fn address_binding_mismatch_rejected() {
    let alice = acc(1);
    let bob = acc(2);
    let carol = acc(3);
    let sink = acc(9);
    let t1 = signed(&alice, bob.addr, 10, 0, 1, 2);
    let t2 = signed(&alice, carol.addr, 10, 1, 1, 2);
    assert_eq!(
        err(&batch(3, 0, sink.addr, vec![t1, t2])),
        Some(BatchError::AddressBindingMismatch)
    );
}

#[test]
fn bad_recovery_id_rejected() {
    let alice = acc(1);
    let bob = acc(2);
    let sink = acc(9);
    let mut tx = signed(&alice, bob.addr, 10, 0, 1, 2);
    tx.v = 4;
    assert_eq!(err(&batch(3, 0, sink.addr, vec![tx])), Some(BatchError::InvalidRecoveryId));
}

#[test]
fn zero_scalar_signature_rejected() {
    let alice = acc(1);
    let bob = acc(2);
    let sink = acc(9);
    let mut tx = signed(&alice, bob.addr, 10, 0, 1, 2);
    tx.sig_r = [0; 32];
    assert_eq!(err(&batch(3, 0, sink.addr, vec![tx])), Some(BatchError::InvalidSignature));
}

#[test]
fn tampered_amount_changes_signer() {
    let alice = acc(1);
    let bob = acc(2);
    let sink = acc(9);
    let mut tx = signed(&alice, bob.addr, 10, 0, 1, 2);
    tx.atoms = 11;
    if let Ok(d) = process_txs(&batch(3, 0, sink.addr, vec![tx])) {
        assert_ne!(d[1].v, alice.addr);
    }
}

#[test]
fn malformed_buffers_rejected() {
    let sink = acc(9);
    assert_eq!(err(&[0u8; 29]), Some(BatchError::MalformedInput));
    assert_eq!(err(&batch(0, 0, sink.addr, vec![])), Some(BatchError::MalformedInput));
    let alice = acc(1);
    let bob = acc(2);
    let mut bytes = batch(3, 0, sink.addr, vec![signed(&alice, bob.addr, 10, 0, 1, 2)]);
    bytes.pop();
    assert_eq!(err(&bytes), Some(BatchError::MalformedInput));
    let bytes = batch(4, 0, sink.addr, vec![signed(&alice, bob.addr, 10, 0, 1, 2)]);
    assert_eq!(err(&bytes), Some(BatchError::MalformedInput));
}

#[test]
fn empty_batch_yields_fee_slot_only() {
    let sink = acc(9);
    let d = run(&batch(1, 3, sink.addr, vec![]));
    assert_eq!(d.len(), 1);
    assert_eq!(d[0].v, sink.addr);
    assert_eq!(d[0].delta, 0);
}

#[test]
fn host_prefix_is_skipped() {
    let alice = acc(1);
    let bob = acc(2);
    let sink = acc(9);
    let mut bytes = vec![0xEE; 8];
    bytes.extend(batch(3, 0, sink.addr, vec![signed(&alice, bob.addr, 100, 7, 1, 2)]));
    let d = process_host_input(&bytes).ok().unwrap();
    assert_eq!(d[1].delta, -100);
    assert_eq!(process_host_input(&[0u8; 7]).err(), Some(BatchError::MalformedInput));
}

#[test]
fn public_values_are_abi_encoded() {
    let alice = acc(1);
    let bob = acc(2);
    let sink = acc(9);
    let mut bytes = vec![0u8; 8];
    bytes.extend(batch(3, 0, sink.addr, vec![signed(&alice, bob.addr, 100, 7, 1, 2)]));
    let out = public_values(&bytes).unwrap();
    // Offset of the struct, offset of its array, the array length, then 5 words per record.
    assert_eq!(out.len(), 96 + 3 * 160);
    assert_eq!(out[31], 0x20);
    assert_eq!(out[63], 0x20);
    assert_eq!(out[95], 3);
    assert_eq!(&out[96 + 12..96 + 32], &sink.addr);
    let rec1 = 96 + 160;
    assert_eq!(&out[rec1 + 12..rec1 + 32], &alice.addr);
    assert_eq!(out[rec1 + 63], 1);
    assert_eq!(out[rec1 + 95], 7);
    assert_eq!(out[rec1 + 127], 7);
    assert_eq!(&out[rec1 + 128..rec1 + 159], &[0xFF; 31]);
    assert_eq!(out[rec1 + 159], 0x9c);
    assert_eq!(public_values(&[0u8; 3]), Err(BatchError::MalformedInput));
}
